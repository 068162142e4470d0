//! Cleaning up what chat programs have stored: which directory is searched, which files
//! are found in it, and which of these may be looked at or deleted.

use crate::commands::reply::{refuse, refused};
use crate::json::{member, text_member, values, Json, JsonV};
use crate::paths::{behind_path, extension, extension_of, is_drive, is_slash, path_join};
use crate::protect::{bare, fold_components, folded, strip_prefix};
use crate::rulepath::Env;
use crate::slots::{
    apart, as_map, lemma_as_map, lemma_as_map_prefix, lemma_as_map_update,
};
use crate::text::{
    byte_len, byte_length, cap64, cat, cat3, chars_of, dec, decimal, join, joined, lowercase, pieces, replace_char, replaced, same, skip_chars, split, starts_with, string_of,
    texts, trim_trailing, without_trailing,
};
use crate::value::{jarray, jcount, jtext, lemma_values_push, Fields};
use vstd::hash_set::StringHashSet;
use vstd::prelude::*;

verus! {

// ------------------------------------------------------------------------ keys of paths

/// The position of the first separator at or after `i`; in a long path only the
/// backslash separates.
pub open spec fn separator_at(p: Seq<char>, i: int, long: bool) -> int
    decreases p.len() - i,
{
    if i < 0 || i >= p.len() || p[i] == '\\' || (!long && p[i] == '/') {
        i
    } else {
        separator_at(p, i + 1, long)
    }
}

/// Whether a path is marked as a long one.
pub open spec fn is_long(p: Seq<char>) -> bool {
    p.len() >= 4 && p[0] == '\\' && p[1] == '\\' && p[2] == '?' && p[3] == '\\'
}

/// How many characters name the drive, the share or the device of a path, and whether
/// they stand for a root by themselves.
pub open spec fn prefix_of(p: Seq<char>) -> (int, bool) {
    if is_long(p) {
        if "UNC\\"@.is_prefix_of(p.skip(4)) {
            let j = separator_at(p, 8, true);
            let k = if j < p.len() {
                separator_at(p, j + 1, true)
            } else {
                j
            };
            (
                if k > j + 1 {
                    k
                } else {
                    j
                },
                false,
            )
        } else {
            (separator_at(p, 4, true), false)
        }
    } else if p.len() >= 2 && is_slash(p[0]) && is_slash(p[1]) {
        if p.len() >= 4 && p[2] == '.' && is_slash(p[3]) {
            (separator_at(p, 4, false), true)
        } else {
            let j = separator_at(p, 2, false);
            let k = if j < p.len() {
                separator_at(p, j + 1, false)
            } else {
                j
            };
            if j > 2 && k > j + 1 {
                (k, true)
            } else {
                (0, false)
            }
        }
    } else if p.len() >= 2 && is_drive(p.take(2)) {
        (2, false)
    } else {
        (0, false)
    }
}

/// What two texts for the same path have in common. The way upwards ends at the drive,
/// the share or the root.
pub open spec fn key_of(p: Seq<char>) -> Seq<char> {
    let (n, root) = prefix_of(p);
    let base = if is_long(p) {
        p.take(n)
    } else {
        replaced(p.take(n), '/', '\\')
    };
    let list = pieces(
        p.skip(n),
        '\\',
        if is_long(p) {
            '\\'
        } else {
            '/'
        },
    );
    let rest = joined(folded(list, list.len() as int), "\\"@);
    let text = if n > 0 || root || (n < p.len() && is_slash(p[n])) {
        base + "\\"@ + rest
    } else {
        rest
    };
    lowercase(without_trailing(text, '\\', '\\'))
}

fn find_separator(v: &Vec<char>, from: usize, long: bool) -> (out: usize)
    requires
        from <= v@.len(),
    ensures
        out == separator_at(v@, from as int, long),
        from <= out <= v@.len(),
{
    let mut i: usize = from;
    while i < v.len() && v[i] != '\\' && (long || v[i] != '/')
        invariant
            from <= i <= v@.len(),
            separator_at(v@, from as int, long) == separator_at(v@, i as int, long),
        decreases v@.len() - i,
    {
        i += 1;
    }
    i
}

fn find_prefix(p: &str, v: &Vec<char>) -> (out: (usize, bool))
    requires
        v@ == p@,
    ensures
        out.0 == prefix_of(p@).0,
        out.1 == prefix_of(p@).1,
        out.0 <= p@.len(),
{
    let slashes: bool = v.len() >= 2 && (v[0] == '\\' || v[0] == '/') && (v[1] == '\\' || v[1]
        == '/');
    if v.len() >= 4 && v[0] == '\\' && v[1] == '\\' && v[2] == '?' && v[3] == '\\' {
        if starts_with(skip_chars(p, 4).as_str(), "UNC\\") {
            proof {
                reveal_strlit("UNC\\");
                assert(p@.skip(4).len() >= 4);
            }
            let j: usize = find_separator(v, 8, true);
            let k: usize = if j < v.len() {
                find_separator(v, j + 1, true)
            } else {
                j
            };
            return (
                if k > j && k - j > 1 {
                    k
                } else {
                    j
                },
                false,
            );
        }
        return (find_separator(v, 4, true), false);
    }
    if slashes {
        if v.len() >= 4 && v[2] == '.' && (v[3] == '\\' || v[3] == '/') {
            return (find_separator(v, 4, false), true);
        }
        let j: usize = find_separator(v, 2, false);
        let k: usize = if j < v.len() {
            find_separator(v, j + 1, false)
        } else {
            j
        };
        return if j > 2 && k > j && k - j > 1 {
            (k, true)
        } else {
            (0, false)
        };
    }
    if v.len() >= 2 && v[1] == ':' && (('a' <= v[0] && v[0] <= 'z') || ('A' <= v[0] && v[0]
        <= 'Z')) {
        return (2, false);
    }
    (0, false)
}

/// What two texts for the same path have in common: both slashes, upper and lower case,
/// and the way through `.` and `..` make no difference.
pub fn path_key(p: &str) -> (out: String)
    ensures
        out@ == key_of(p@),
{
    let v: Vec<char> = chars_of(p);
    let (n, root) = find_prefix(p, &v);
    let head: String = string_of(&v, 0, n);
    assert(head@ =~= p@.take(n as int));
    let long: bool = v.len() >= 4 && v[0] == '\\' && v[1] == '\\' && v[2] == '?' && v[3] == '\\';
    let base: String = if long {
        head
    } else {
        replace_char(head.as_str(), '/', '\\')
    };
    let list: Vec<String> = split(
        skip_chars(p, n).as_str(),
        '\\',
        if long {
            '\\'
        } else {
            '/'
        },
    );
    assert(texts(list@).len() == list@.len());
    let rest: String = join(&fold_components(&list), "\\");
    let text: String = if n > 0 || root || (n < v.len() && (v[n] == '\\' || v[n] == '/')) {
        cat3(base.as_str(), "\\", rest.as_str())
    } else {
        rest
    };
    trim_trailing(text.as_str(), '\\', '\\').to_lowercase()
}

// --------------------------------------------------------------------- kinds of files

/// The extension of a name, in lower case.
pub open spec fn extension_key(name: Seq<char>) -> Seq<char> {
    match extension_of(name) {
        Some(x) => lowercase(x),
        None => Seq::empty(),
    }
}

/// The extension of a name, in lower case; empty where it has none.
pub fn ext_of(name: &str) -> (out: String)
    ensures
        out@ == extension_key(name@),
{
    match extension(name) {
        Some(x) => x.to_lowercase(),
        None => {
            let none: String = String::new();
            assert(none@ =~= Seq::empty());
            none
        },
    }
}

/// Whether an extension is that of an image.
pub open spec fn is_image(ext: Seq<char>) -> bool {
    ext == "jpg"@ || ext == "jpeg"@ || ext == "png"@ || ext == "gif"@ || ext == "bmp"@ || ext
        == "webp"@ || ext == "svg"@
}

/// Whether an extension is that of a video.
pub open spec fn is_video(ext: Seq<char>) -> bool {
    ext == "mp4"@ || ext == "avi"@ || ext == "mov"@ || ext == "mkv"@ || ext == "flv"@
}

/// Whether an extension is that of a file that is not needed any more.
pub open spec fn is_cache(ext: Seq<char>) -> bool {
    ext == "tmp"@ || ext == "log"@ || ext == "bak"@ || ext == "cache"@
}

/// The kind of file that an extension stands for. Databases and keys are of none.
pub open spec fn kind_of_ext(ext: Seq<char>) -> Option<Seq<char>> {
    if is_image(ext) {
        Some("image"@)
    } else if is_video(ext) {
        Some("video"@)
    } else if is_cache(ext) {
        Some("cache"@)
    } else if ext == "dat"@ {
        Some("data"@)
    } else {
        None
    }
}

/// The kind of file that an extension in lower case stands for.
pub fn classify(ext: &str) -> (out: Option<&'static str>)
    ensures
        match out {
            Some(k) => kind_of_ext(ext@) == Some(k@),
            None => kind_of_ext(ext@) is None,
        },
{
    if same(ext, "jpg") || same(ext, "jpeg") || same(ext, "png") || same(ext, "gif") || same(
        ext,
        "bmp",
    ) || same(ext, "webp") || same(ext, "svg") {
        Some("image")
    } else if same(ext, "mp4") || same(ext, "avi") || same(ext, "mov") || same(ext, "mkv") || same(
        ext,
        "flv",
    ) {
        Some("video")
    } else if same(ext, "tmp") || same(ext, "log") || same(ext, "bak") || same(ext, "cache") {
        Some("cache")
    } else if same(ext, "dat") {
        Some("data")
    } else {
        None
    }
}

/// The type under which an image is shown.
pub open spec fn mime_of(ext: Seq<char>) -> Option<Seq<char>> {
    if ext == "jpg"@ || ext == "jpeg"@ {
        Some("image/jpeg"@)
    } else if ext == "png"@ {
        Some("image/png"@)
    } else if ext == "gif"@ {
        Some("image/gif"@)
    } else if ext == "bmp"@ {
        Some("image/bmp"@)
    } else if ext == "webp"@ {
        Some("image/webp"@)
    } else if ext == "svg"@ {
        Some("image/svg+xml"@)
    } else {
        None
    }
}

/// The type under which an image is shown.
pub fn image_mime(ext: &str) -> (out: Option<&'static str>)
    ensures
        match out {
            Some(m) => mime_of(ext@) == Some(m@),
            None => mime_of(ext@) is None,
        },
{
    if same(ext, "jpg") || same(ext, "jpeg") {
        Some("image/jpeg")
    } else if same(ext, "png") {
        Some("image/png")
    } else if same(ext, "gif") {
        Some("image/gif")
    } else if same(ext, "bmp") {
        Some("image/bmp")
    } else if same(ext, "webp") {
        Some("image/webp")
    } else if same(ext, "svg") {
        Some("image/svg+xml")
    } else {
        None
    }
}

// ------------------------------------------------------------- what was found by whom

/// What a search has found: the key of the directory and the keys of the files.
pub struct Scope {
    pub root: String,
    pub files: StringHashSet,
}

/// The mathematical value of what a search has found.
pub struct ScopeV {
    pub root: Seq<char>,
    pub files: Set<Seq<char>>,
}

impl Scope {
    pub open spec fn view(self) -> ScopeV {
        ScopeV { root: self.root@, files: self.files@ }
    }
}

/// What was found, for each window and kind of program.
pub struct Scopes {
    slots: Vec<(String, Scope)>,
}

/// The name under which a window keeps what was found for a kind of program.
pub open spec fn slot_name(label: Seq<char>, ty: Seq<char>) -> Seq<char> {
    label + ":"@ + ty
}

/// The name under which a window keeps what was found for a kind of program.
pub fn slot_key(label: &str, ty: &str) -> (out: String)
    ensures
        out@ == slot_name(label@, ty@),
{
    cat3(label, ":", ty)
}

/// The window whose search counts for a window: that of the preview is the main one's.
pub open spec fn owner_of(label: Seq<char>) -> Seq<char> {
    if label == "preview"@ {
        "main"@
    } else {
        label
    }
}

/// The window whose search counts for a window.
pub fn scope_owner(label: &str) -> (out: &str)
    ensures
        out@ == owner_of(label@),
{
    if same(label, "preview") {
        "main"
    } else {
        label
    }
}

spec fn slot_views(v: Seq<(String, Scope)>) -> Seq<(Seq<char>, ScopeV)> {
    Seq::new(v.len(), |i: int| (v[i].0@, v[i].1.view()))
}

/// What was found without some of its files.
pub open spec fn without_files(s: ScopeV, keys: Set<Seq<char>>) -> ScopeV {
    ScopeV { root: s.root, files: s.files.difference(keys) }
}

impl Scopes {
    /// What was found, by the names of the slots.
    pub closed spec fn view(self) -> Map<Seq<char>, ScopeV> {
        as_map(slot_views(self.slots@), self.slots@.len() as int)
    }

    /// Whether every slot is there once.
    pub closed spec fn wf(self) -> bool {
        apart(slot_views(self.slots@))
    }

    /// What was found for a slot.
    pub open spec fn at(self, label: Seq<char>, ty: Seq<char>) -> Option<ScopeV> {
        if self.view().contains_key(slot_name(label, ty)) {
            Some(self.view()[slot_name(label, ty)])
        } else {
            None
        }
    }

    /// No search was made yet.
    pub fn new() -> (out: Self)
        ensures
            out.wf(),
            out.view() == Map::<Seq<char>, ScopeV>::empty(),
    {
        Scopes { slots: Vec::new() }
    }

    fn find(&self, key: &str) -> (out: Option<usize>)
        requires
            self.wf(),
        ensures
            match out {
                Some(i) => i < self.slots@.len() && self.slots@[i as int].0@ == key@
                    && self.view().contains_key(key@) && self.view()[key@]
                    == self.slots@[i as int].1.view(),
                None => !self.view().contains_key(key@) && forall|j: int|
                    0 <= j < self.slots@.len() ==> (#[trigger] self.slots@[j]).0@ != key@,
            },
    {
        let ghost v = slot_views(self.slots@);
        let mut i: usize = 0;
        proof {
            lemma_as_map(v, v.len() as int);
        }
        while i < self.slots.len()
            invariant
                i <= self.slots@.len(),
                v == slot_views(self.slots@),
                self.view() == as_map(v, v.len() as int),
                forall|k: int|
                    0 <= k < v.len() ==> as_map(v, v.len() as int).contains_key((#[trigger] v[k]).0)
                        && as_map(v, v.len() as int)[v[k].0] == v[k].1,
                forall|k: int| 0 <= k < i ==> (#[trigger] self.slots@[k]).0@ != key@,
            decreases self.slots@.len() - i,
        {
            assert(v[i as int] == (self.slots@[i as int].0@, self.slots@[i as int].1.view()));
            if same(self.slots[i].0.as_str(), key) {
                return Some(i);
            }
            i += 1;
        }
        proof {
            assert forall|k: int| 0 <= k < v.len() implies (#[trigger] v[k]).0 != key@ by {
                assert(self.slots@[k].0@ != key@);
            }
        }
        None
    }

    /// Keeps what a search has found, in place of what was found before.
    pub fn store(&mut self, label: &str, ty: &str, root: String, files: StringHashSet)
        requires
            old(self).wf(),
        ensures
            final(self).wf(),
            final(self).view() == old(self).view().insert(
                slot_name(label@, ty@),
                (ScopeV { root: root@, files: files@ }),
            ),
    {
        let key: String = slot_key(label, ty);
        let ghost v = slot_views(self.slots@);
        let scope: Scope = Scope { root, files };
        match self.find(key.as_str()) {
            Some(i) => {
                self.slots.set(i, (key, scope));
                proof {
                    let w = slot_views(self.slots@);
                    assert(w =~= v.update(i as int, (key@, scope.view())));
                    assert(v[i as int].0 == key@);
                    lemma_as_map_update(v, w, i as int, v.len() as int);
                    assert(apart(w));
                }
            },
            None => {
                proof {
                    assert forall|k: int| 0 <= k < v.len() implies (#[trigger] v[k]).0 != key@ by {
                        assert(self.slots@[k].0@ != key@);
                    }
                }
                self.slots.push((key, scope));
                proof {
                    let w = slot_views(self.slots@);
                    assert(w =~= v.push((key@, scope.view())));
                    lemma_as_map_prefix(v, w, v.len() as int);
                }
            },
        }
    }

    /// What was found for a slot.
    pub fn get(&self, label: &str, ty: &str) -> (out: Option<&Scope>)
        requires
            self.wf(),
        ensures
            match out {
                Some(s) => self.at(label@, ty@) == Some(s.view()),
                None => self.at(label@, ty@) is None,
            },
    {
        match self.find(slot_key(label, ty).as_str()) {
            Some(i) => Some(&self.slots[i].1),
            None => None,
        }
    }

    /// Takes files out of what was found for a slot.
    pub fn forget(&mut self, label: &str, ty: &str, keys: &Vec<String>)
        requires
            old(self).wf(),
        ensures
            final(self).wf(),
            final(self).view() == (match old(self).at(label@, ty@) {
                Some(s) => old(self).view().insert(
                    slot_name(label@, ty@),
                    without_files(s, texts(keys@).to_set()),
                ),
                None => old(self).view(),
            }),
    {
        let key: String = slot_key(label, ty);
        let ghost v = slot_views(self.slots@);
        let ghost start = *self;
        match self.find(key.as_str()) {
            None => {},
            Some(i) => {
                let ghost s = v[i as int].1;
                let ghost kv = texts(keys@);
                let mut k: usize = 0;
                assert(kv.take(0).to_set() =~= Set::empty());
                assert(s.files.difference(kv.take(0).to_set()) =~= s.files);
                assert(slot_views(self.slots@) =~= v.update(
                    i as int,
                    (key@, without_files(s, kv.take(0).to_set())),
                ));
                while k < keys.len()
                    invariant
                        k <= keys@.len(),
                        kv == texts(keys@),
                        i < v.len(),
                        self.slots@.len() == v.len(),
                        v[i as int] == (key@, s),
                        slot_views(self.slots@) == v.update(
                            i as int,
                            (key@, without_files(s, kv.take(k as int).to_set())),
                        ),
                    decreases keys@.len() - k,
                {
                    let ghost w = slot_views(self.slots@);
                    let ghost before = self.slots@;
                    assert(w[i as int] == (before[i as int].0@, before[i as int].1.view()));
                    self.slots[i].1.files.remove(keys[k].as_str());
                    proof {
                        let done = kv.take(k as int);
                        let more = kv.take(k + 1);
                        assert(kv[k as int] == keys@[k as int]@);
                        assert(more =~= done.push(kv[k as int]));
                        assert(more.to_set() =~= done.to_set().insert(kv[k as int])) by {
                            assert forall|x: Seq<char>| #[trigger]
                                more.to_set().contains(x) implies done.to_set().insert(
                                kv[k as int],
                            ).contains(x) by {
                                let j = choose|j: int| 0 <= j < more.len() && more[j] == x;
                                if j < k {
                                    assert(done[j] == x);
                                    assert(done.contains(x));
                                }
                            }
                            assert forall|x: Seq<char>| #[trigger]
                                done.to_set().insert(kv[k as int]).contains(x) implies
                            more.to_set().contains(x) by {
                                if done.to_set().contains(x) {
                                    let j = choose|j: int| 0 <= j < done.len() && done[j] == x;
                                    assert(more[j] == x);
                                } else {
                                    assert(more[k as int] == x);
                                }
                            }
                        }
                        assert(s.files.difference(done.to_set()).remove(kv[k as int])
                            =~= s.files.difference(more.to_set()));
                        let now = self.slots@;
                        assert(before[i as int].1.view() == without_files(s, done.to_set()));
                        assert(now[i as int].1.view() == without_files(s, more.to_set()));
                        assert forall|j: int| 0 <= j < v.len() implies #[trigger] slot_views(
                            now,
                        )[j] == v.update(i as int, (key@, without_files(s, more.to_set())))[j] by {
                            if j != i {
                                assert(now[j] == before[j]);
                                assert(w[j] == (before[j].0@, before[j].1.view()));
                            }
                        }
                        assert(slot_views(now) =~= v.update(
                            i as int,
                            (key@, without_files(s, more.to_set())),
                        ));
                    }
                    k += 1;
                }
                proof {
                    assert(kv.take(k as int) =~= kv);
                    let w = slot_views(self.slots@);
                    lemma_as_map_update(v, w, i as int, v.len() as int);
                }
            },
        }
    }
}

/// Whether a path belongs to what was found.
pub open spec fn covers(s: ScopeV, path: Seq<char>) -> bool {
    s.root.is_prefix_of(key_of(path)) && s.files.contains(key_of(path))
}

/// Whether a path belongs to what was found.
pub fn in_scope(scope: &Scope, file_path: &str) -> (out: bool)
    ensures
        out == covers(scope.view(), file_path@),
{
    let k: String = path_key(file_path);
    starts_with(k.as_str(), scope.root.as_str()) && scope.files.contains(k.as_str())
}

/// The kind of program for whose search a path belongs to what was found, as seen from a
/// window.
pub open spec fn slot_of(s: Scopes, label: Seq<char>, path: Seq<char>) -> Option<Seq<char>> {
    if s.at(label, "qq"@) matches Some(q) && covers(q, path) {
        Some("qq"@)
    } else if s.at(label, "wechat"@) matches Some(w) && covers(w, path) {
        Some("wechat"@)
    } else {
        None
    }
}

/// The kind of program for whose search a path belongs to what was found.
pub fn find_slot(s: &Scopes, label: &str, path: &str) -> (out: Option<&'static str>)
    requires
        s.wf(),
    ensures
        match out {
            Some(t) => slot_of(*s, label@, path@) == Some(t@),
            None => slot_of(*s, label@, path@) is None,
        },
{
    if let Some(q) = s.get(label, "qq") {
        if in_scope(q, path) {
            return Some("qq");
        }
    }
    if let Some(w) = s.get(label, "wechat") {
        if in_scope(w, path) {
            return Some("wechat");
        }
    }
    None
}

// ------------------------------------------------------------- what is searched

/// The reply that a search was not made, and why.
pub open spec fn refused_scan(message: Seq<char>) -> JsonV {
    JsonV::Obj(
        seq![
            ("success"@, JsonV::Bool(false)),
            ("data"@, JsonV::Arr(Seq::empty())),
            ("message"@, JsonV::Str(message)),
        ],
    )
}

/// The reply that a search was not made, and why.
pub fn refuse_scan(message: &str) -> (out: Json)
    ensures
        out.view() == refused_scan(message@),
{
    let none: Vec<Json> = Vec::new();
    assert(values(none@) =~= Seq::empty());
    let f: Fields = Fields::new().with("success", Json::Bool(false)).with(
        "data",
        jarray(none),
    ).with("message", jtext(message));
    assert(f.view() =~= refused_scan(message@)->Obj_0);
    f.object()
}

/// The kind of program that is asked for; otherwise the reply.
pub fn file_type(scan_type: Option<&str>) -> (out: Result<&'static str, Json>)
    ensures
        match out {
            Ok(t) => scan_type matches Some(s) && s@ == t@ && (t@ == "qq"@ || t@ == "wechat"@),
            Err(r) => (scan_type matches Some(s) ==> s@ != "qq"@ && s@ != "wechat"@) && r.view()
                == refused_scan("未知类型"@),
        },
{
    if let Some(s) = scan_type {
        if same(s, "qq") {
            return Ok("qq");
        }
        if same(s, "wechat") {
            return Ok("wechat");
        }
    }
    Err(refuse_scan("未知类型"))
}

/// The name of the setting that holds the directory of a kind of program.
pub open spec fn setting_of(ty: Seq<char>) -> Seq<char> {
    if ty == "qq"@ {
        "qqFileDir"@
    } else {
        "wechatFileDir"@
    }
}

/// The name of the setting that holds the directory of a kind of program.
pub fn config_key(ty: &str) -> (out: &'static str)
    ensures
        out@ == setting_of(ty@),
{
    if same(ty, "qq") {
        "qqFileDir"
    } else {
        "wechatFileDir"
    }
}

/// The directory in which a kind of program stores what it receives, where nothing else
/// is set.
pub open spec fn usual_dir(ty: Seq<char>, env: Env) -> Seq<char> {
    let home = match env.value("USERPROFILE"@) {
        Some(h) => h,
        None => Seq::empty(),
    };
    behind_path(
        behind_path(home, "Documents"@),
        if ty == "qq"@ {
            "Tencent Files"@
        } else {
            "xwechat_files"@
        },
    )
}

/// The directory in which a kind of program stores what it receives, where nothing else
/// is set.
pub fn default_dir(ty: &str, env: &Env) -> (out: String)
    ensures
        out@ == usual_dir(ty@, *env),
{
    let home: String = match env.get("USERPROFILE") {
        Some(h) => h,
        None => {
            let none: String = String::new();
            assert(none@ =~= Seq::empty());
            none
        },
    };
    let docs: String = path_join(home.as_str(), "Documents");
    path_join(
        docs.as_str(),
        if same(ty, "qq") {
            "Tencent Files"
        } else {
            "xwechat_files"
        },
    )
}

/// The directory that is searched: the one that is set, else the usual one where it is
/// there.
pub open spec fn dir_to_scan(ty: Seq<char>, settings: JsonV, usual: Option<Seq<char>>) -> Option<
    Seq<char>,
> {
    match text_member(settings, setting_of(ty)) {
        Some(d) => if d.len() > 0 {
            Some(d)
        } else {
            usual
        },
        None => usual,
    }
}

/// The directory that is searched; otherwise the reply.
pub fn configured_dir(ty: &str, settings: &Json, usual: Option<&str>) -> (out: Result<String, Json>)
    ensures
        match out {
            Ok(d) => dir_to_scan(
                ty@,
                settings.view(),
                match usual {
                    Some(u) => Some(u@),
                    None => None,
                },
            ) == Some(d@),
            Err(r) => dir_to_scan(
                ty@,
                settings.view(),
                match usual {
                    Some(u) => Some(u@),
                    None => None,
                },
            ) is None && r.view() == refused_scan("路径不存在，请在设置中配置文件目录"@),
        },
{
    if let Some(d) = settings.text(config_key(ty)) {
        if d.unicode_len() > 0 {
            return Ok(d.to_owned());
        }
    }
    match usual {
        Some(u) => Ok(u.to_owned()),
        None => Err(refuse_scan("路径不存在，请在设置中配置文件目录")),
    }
}

/// What stands at the place that is to be searched.
#[derive(Debug, Clone, Copy, PartialEq, Eq, Structural)]
pub enum Place {
    Missing,
    PlainDir,
    Other,
}

/// How many bytes a path may take.
pub const MAX_PATH_LEN: usize = 400;

/// Why a directory is not searched. A directory that is asked for must be the one that
/// is set: no other directory can be read this way.
pub open spec fn root_refusal(
    place: Place,
    custom: Option<Seq<char>>,
    resolved: Seq<char>,
) -> Option<Seq<char>> {
    if place == Place::Missing {
        Some("路径不存在，请在设置中配置文件目录"@)
    } else if place == Place::Other {
        Some("扫描路径必须是普通目录"@)
    } else if custom matches Some(c) && c.len() > 0 && key_of(bare(c)) != key_of(bare(resolved)) {
        Some("扫描路径必须来自已保存的路径配置，请先在设置中保存该路径"@)
    } else if byte_length(resolved) > MAX_PATH_LEN {
        Some("扫描路径过长"@)
    } else {
        None
    }
}

/// Whether a directory is searched, given what stands there and the name that the system
/// gives it; otherwise the reply.
pub fn check_root(place: Place, custom: Option<&str>, resolved: &str) -> (out: Result<(), Json>)
    ensures
        match out {
            Ok(_) => root_refusal(
                place,
                match custom {
                    Some(c) => Some(c@),
                    None => None,
                },
                resolved@,
            ) is None,
            Err(r) => root_refusal(
                place,
                match custom {
                    Some(c) => Some(c@),
                    None => None,
                },
                resolved@,
            ) matches Some(m) && r.view() == refused_scan(m),
        },
{
    match place {
        Place::Missing => {
            return Err(refuse_scan("路径不存在，请在设置中配置文件目录"));
        },
        Place::Other => {
            return Err(refuse_scan("扫描路径必须是普通目录"));
        },
        Place::PlainDir => {},
    }
    if let Some(c) = custom {
        if c.unicode_len() > 0 {
            let a: String = path_key(strip_prefix(c).as_str());
            let b: String = path_key(strip_prefix(resolved).as_str());
            if !same(a.as_str(), b.as_str()) {
                return Err(
                    refuse_scan("扫描路径必须来自已保存的路径配置，请先在设置中保存该路径"),
                );
            }
        }
    }
    if byte_len(resolved) > MAX_PATH_LEN as u128 {
        return Err(refuse_scan("扫描路径过长"));
    }
    Ok(())
}

// -------------------------------------------------------------------------- the search

/// How many files a search finds at most.
pub const MAX_FILES: usize = 2000;

/// How deep a search goes.
pub const MAX_DEPTH: usize = 4;

/// What an entry of a directory is: it cannot be looked at, it leads elsewhere, it is a
/// directory, a file with its size and its time, or something else.
#[derive(Debug, Clone, Copy, PartialEq, Eq, Structural)]
pub enum Kind {
    Unread,
    Link,
    Dir,
    File { size: u64, mtime: u64 },
    Other,
}

/// An entry of a directory: its name, whether the name is exact, and what it is.
#[derive(Debug)]
pub struct Found {
    pub name: String,
    pub exact: bool,
    pub kind: Kind,
}

/// The mathematical value of an entry of a directory.
pub struct FoundV {
    pub name: Seq<char>,
    pub exact: bool,
    pub kind: Kind,
}

impl Found {
    pub open spec fn view(self) -> FoundV {
        FoundV { name: self.name@, exact: self.exact, kind: self.kind }
    }
}

/// The values of the entries of a directory.
pub open spec fn found_views(v: Seq<Found>) -> Seq<FoundV> {
    Seq::new(v.len(), |i: int| v[i].view())
}

/// A search under way: the directories that are still to be read with their depths, what
/// was found, how many files were put into a category, and how many entries have no exact
/// name.
pub struct WalkV {
    pub queue: Seq<(Seq<char>, nat)>,
    pub items: Seq<JsonV>,
    pub scanned: nat,
    pub unhandled: nat,
}

/// Whether a directory may hold messages that must stay.
pub open spec fn holds_messages(name: Seq<char>) -> bool {
    "recv"@.is_prefix_of(lowercase(name)) || "msg"@.is_prefix_of(lowercase(name))
}

/// A file as it is reported.
pub open spec fn file_item(
    dir: Seq<char>,
    name: Seq<char>,
    size: u64,
    mtime: u64,
    kind: Seq<char>,
) -> JsonV {
    JsonV::Obj(
        seq![
            ("path"@, JsonV::Str(replaced(behind_path(dir, name), '/', '\\'))),
            ("name"@, JsonV::Str(name)),
            ("size"@, JsonV::Num(dec(size as nat))),
            ("mtime"@, JsonV::Str(dec(mtime as nat))),
            ("ext"@, JsonV::Str(extension_key(name))),
            ("category"@, JsonV::Str(kind)),
        ],
    )
}

/// The search after one entry of a directory at a depth. Entries without an exact name
/// are counted only, links are passed over. Nothing is taken from the first directory
/// itself, and near it directories with messages are left alone.
pub open spec fn after_entry(w: WalkV, dir: Seq<char>, depth: nat, f: FoundV) -> WalkV {
    if w.items.len() >= MAX_FILES {
        w
    } else if !f.exact {
        WalkV { unhandled: cap64(w.unhandled + 1), ..w }
    } else {
        match f.kind {
            Kind::Dir => if (depth < 2 && holds_messages(f.name)) || depth >= MAX_DEPTH {
                w
            } else {
                WalkV { queue: w.queue.push((behind_path(dir, f.name), depth + 1)), ..w }
            },
            Kind::File { size, mtime } => if depth == 0 {
                w
            } else {
                match kind_of_ext(extension_key(f.name)) {
                    Some(k) => WalkV {
                        items: w.items.push(file_item(dir, f.name, size, mtime, k)),
                        scanned: cap64(w.scanned + 1),
                        ..w
                    },
                    None => w,
                }
            },
            _ => w,
        }
    }
}

/// The search after the first `n` entries of a directory.
pub open spec fn after_entries(
    w: WalkV,
    dir: Seq<char>,
    depth: nat,
    list: Seq<FoundV>,
    n: int,
) -> WalkV
    decreases n,
{
    if n <= 0 {
        w
    } else {
        after_entry(after_entries(w, dir, depth, list, n - 1), dir, depth, list[n - 1])
    }
}

/// A search under way.
#[derive(Debug)]
pub struct Walk {
    queue: Vec<(String, usize)>,
    head: usize,
    items: Vec<Json>,
    scanned: u64,
    unhandled: u64,
}

spec fn queue_views(v: Seq<(String, usize)>) -> Seq<(Seq<char>, nat)> {
    Seq::new(v.len(), |i: int| (v[i].0@, v[i].1 as nat))
}

impl Walk {
    /// The mathematical value of the search.
    pub closed spec fn view(self) -> WalkV {
        WalkV {
            queue: queue_views(self.queue@).skip(self.head as int),
            items: values(self.items@),
            scanned: self.scanned as nat,
            unhandled: self.unhandled as nat,
        }
    }

    /// Whether the search has kept to its limits.
    pub closed spec fn wf(self) -> bool {
        &&& self.head <= self.queue@.len()
        &&& self.items@.len() <= MAX_FILES
        &&& forall|i: int| 0 <= i < self.queue@.len() ==> (#[trigger] self.queue@[i]).1 <= MAX_DEPTH
    }

    /// A search of a directory.
    pub fn new(root: &str) -> (out: Self)
        ensures
            out.wf(),
            out.view() == (WalkV {
                queue: seq![(root@, 0nat)],
                items: Seq::empty(),
                scanned: 0,
                unhandled: 0,
            }),
    {
        let mut queue: Vec<(String, usize)> = Vec::new();
        queue.push((root.to_owned(), 0));
        let out: Walk = Walk { queue, head: 0, items: Vec::new(), scanned: 0, unhandled: 0 };
        assert(values(out.items@) =~= Seq::empty());
        assert(queue_views(out.queue@).skip(0) =~= seq![(root@, 0nat)]);
        out
    }

    /// The next directory to read with its depth. There is none where enough was found.
    pub fn next(&mut self) -> (out: Option<(String, usize)>)
        requires
            old(self).wf(),
        ensures
            final(self).wf(),
            match out {
                Some(d) => old(self).view().items.len() < MAX_FILES
                    && old(self).view().queue.len() > 0 && (d.0@, d.1 as nat)
                    == old(self).view().queue[0] && final(self).view() == (WalkV {
                    queue: old(self).view().queue.skip(1),
                    ..old(self).view()
                }) && d.1 <= MAX_DEPTH,
                None => (old(self).view().items.len() >= MAX_FILES
                    || old(self).view().queue.len() == 0) && final(self).view() == old(
                    self,
                ).view(),
            },
    {
        assert(values(self.items@).len() == self.items@.len());
        if self.items.len() >= MAX_FILES || self.head == self.queue.len() {
            return None;
        }
        let ghost all = queue_views(self.queue@);
        let d: &(String, usize) = &self.queue[self.head];
        let out: (String, usize) = (d.0.clone(), d.1);
        assert(all[self.head as int] == (out.0@, out.1 as nat));
        self.head += 1;
        assert(all.skip(self.head - 1).skip(1) =~= all.skip(self.head as int));
        Some(out)
    }

    /// Takes in the entries of a directory.
    pub fn visit(&mut self, dir: &str, depth: usize, entries: &Vec<Found>)
        requires
            old(self).wf(),
            depth <= MAX_DEPTH,
        ensures
            final(self).wf(),
            final(self).view() == after_entries(
                old(self).view(),
                dir@,
                depth as nat,
                found_views(entries@),
                entries@.len() as int,
            ),
    {
        let ghost start = self.view();
        let ghost ev = found_views(entries@);
        let mut i: usize = 0;
        while i < entries.len()
            invariant
                i <= entries@.len(),
                ev == found_views(entries@),
                depth <= MAX_DEPTH,
                self.wf(),
                self.view() == after_entries(start, dir@, depth as nat, ev, i as int),
            decreases entries@.len() - i,
        {
            assert(ev[i as int] == entries@[i as int].view());
            self.visit_entry(dir, depth, &entries[i]);
            i += 1;
        }
    }

    fn visit_entry(&mut self, dir: &str, depth: usize, f: &Found)
        requires
            old(self).wf(),
            depth <= MAX_DEPTH,
        ensures
            final(self).wf(),
            final(self).view() == after_entry(old(self).view(), dir@, depth as nat, f.view()),
    {
        let ghost start = self.view();
        assert(values(self.items@).len() == self.items@.len());
        if self.items.len() >= MAX_FILES {
            return;
        }
        if !f.exact {
            self.unhandled = more(self.unhandled);
            return;
        }
        match f.kind {
            Kind::Dir => {
                if depth >= MAX_DEPTH {
                    return;
                }
                let l: String = f.name.to_lowercase();
                if depth < 2 && (starts_with(l.as_str(), "recv") || starts_with(
                    l.as_str(),
                    "msg",
                )) {
                    return;
                }
                let full: String = path_join(dir, f.name.as_str());
                let ghost before = queue_views(self.queue@);
                self.queue.push((full, depth + 1));
                proof {
                    let now = queue_views(self.queue@);
                    assert(now =~= before.push((full@, (depth + 1) as nat)));
                    assert(now.skip(self.head as int) =~= before.skip(self.head as int).push(
                        (full@, (depth + 1) as nat),
                    ));
                }
            },
            Kind::File { size, mtime } => {
                if depth == 0 {
                    return;
                }
                let ext: String = ext_of(f.name.as_str());
                if let Some(k) = classify(ext.as_str()) {
                    self.scanned = more(self.scanned);
                    let item: Json = make_item(dir, f.name.as_str(), size, mtime, k);
                    proof {
                        lemma_values_push(self.items@, item);
                    }
                    self.items.push(item);
                }
            },
            _ => {},
        }
    }

    /// What was found, how many files were put into a category, and how many entries have
    /// no exact name.
    pub fn finish(self) -> (out: (Vec<Json>, u64, u64))
        requires
            self.wf(),
        ensures
            values(out.0@) == self.view().items,
            out.0@.len() <= MAX_FILES,
            out.1 == self.view().scanned,
            out.2 == self.view().unhandled,
    {
        (self.items, self.scanned, self.unhandled)
    }
}

fn more(n: u64) -> (out: u64)
    ensures
        out == cap64((n + 1) as nat),
{
    if n == u64::MAX {
        n
    } else {
        n + 1
    }
}

fn make_item(dir: &str, name: &str, size: u64, mtime: u64, kind: &str) -> (out: Json)
    ensures
        out.view() == file_item(dir@, name@, size, mtime, kind@),
{
    let full: String = path_join(dir, name);
    let f: Fields = Fields::new().with(
        "path",
        jtext(replace_char(full.as_str(), '/', '\\').as_str()),
    ).with("name", jtext(name)).with("size", jcount(size)).with(
        "mtime",
        jtext(decimal(mtime).as_str()),
    ).with("ext", jtext(ext_of(name).as_str())).with("category", jtext(kind));
    assert(f.view() =~= file_item(dir@, name@, size, mtime, kind@)->Obj_0);
    f.object()
}

/// The size of a file that was reported.
pub open spec fn item_size(v: JsonV) -> nat {
    match member(v, "size"@) {
        Some(JsonV::Num(t)) => match crate::numbers::number_in(t) {
            Some(n) => n as nat,
            None => 0,
        },
        _ => 0,
    }
}

/// The size of the first `n` files.
pub open spec fn total_size(items: Seq<JsonV>, n: int) -> nat
    decreases n,
{
    if n <= 0 {
        0
    } else {
        cap64(total_size(items, n - 1) + item_size(items[n - 1]))
    }
}

/// The keys of the first `n` files.
pub open spec fn item_keys(items: Seq<JsonV>, n: int) -> Set<Seq<char>>
    decreases n,
{
    if n <= 0 {
        Set::empty()
    } else {
        match text_member(items[n - 1], "path"@) {
            Some(p) => item_keys(items, n - 1).insert(key_of(p)),
            None => item_keys(items, n - 1),
        }
    }
}

/// The reply to a search.
pub open spec fn scan_reply(items: Seq<JsonV>, resolved: Seq<char>, unhandled: nat) -> JsonV {
    JsonV::Obj(
        seq![
            ("success"@, JsonV::Bool(true)),
            (
                "data"@,
                JsonV::Obj(
                    seq![
                        ("files"@, JsonV::Arr(items)),
                        ("totalSize"@, JsonV::Str(dec(total_size(items, items.len() as int)))),
                        ("scanPath"@, JsonV::Str(resolved)),
                        ("unhandled"@, JsonV::Num(dec(unhandled))),
                    ],
                ),
            ),
        ],
    )
}

/// What is told about the progress of a search.
pub open spec fn scan_progress(ty: Seq<char>, n: nat) -> JsonV {
    JsonV::Obj(
        seq![
            ("scanType"@, JsonV::Str(ty)),
            ("done"@, JsonV::Num(dec(n))),
            ("total"@, JsonV::Num(dec(n))),
        ],
    )
}

fn sum_sizes(items: &Vec<Json>) -> (out: u64)
    ensures
        out == total_size(values(items@), items@.len() as int),
{
    let ghost iv = values(items@);
    let mut out: u64 = 0;
    let mut i: usize = 0;
    while i < items.len()
        invariant
            i <= items@.len(),
            iv == values(items@),
            out == total_size(iv, i as int),
        decreases items@.len() - i,
    {
        assert(iv[i as int] == items@[i as int].view());
        let n: u64 = match items[i].get("size") {
            Some(Json::Num(t)) => match crate::numbers::read_number(t.as_str()) {
                Some(n) => n,
                None => 0,
            },
            _ => 0,
        };
        assert(n == item_size(iv[i as int]));
        out = if n > u64::MAX - out {
            u64::MAX
        } else {
            out + n
        };
        i += 1;
    }
    out
}

/// The end of a search: what was found is kept for the window, the reply, and what is
/// told about the progress.
pub fn finish_scan(
    scopes: &mut Scopes,
    label: &str,
    ty: &str,
    resolved: &str,
    items: Vec<Json>,
    unhandled: u64,
) -> (out: (Json, Json))
    requires
        old(scopes).wf(),
    ensures
        final(scopes).wf(),
        final(scopes).view() == old(scopes).view().insert(
            slot_name(label@, ty@),
            (ScopeV {
                root: key_of(resolved@),
                files: item_keys(values(items@), items@.len() as int),
            }),
        ),
        out.0.view() == scan_reply(values(items@), resolved@, unhandled as nat),
        out.1.view() == scan_progress(ty@, items@.len()),
{
    let ghost iv = values(items@);
    assert(iv.len() == items@.len());
    let mut files: StringHashSet = StringHashSet::new();
    let mut i: usize = 0;
    while i < items.len()
        invariant
            i <= items@.len(),
            iv == values(items@),
            files@ == item_keys(iv, i as int),
        decreases items@.len() - i,
    {
        assert(iv[i as int] == items@[i as int].view());
        if let Some(p) = items[i].text("path") {
            files.insert(path_key(p));
        }
        i += 1;
    }
    scopes.store(label, ty, path_key(resolved), files);
    let n: u64 = items.len() as u64;
    let p: Fields = Fields::new().with("scanType", jtext(ty)).with("done", jcount(n)).with(
        "total",
        jcount(n),
    );
    assert(p.view() =~= scan_progress(ty@, items@.len())->Obj_0);
    let total: u64 = sum_sizes(&items);
    let d: Fields = Fields::new().with("files", jarray(items)).with(
        "totalSize",
        jtext(decimal(total).as_str()),
    ).with("scanPath", jtext(resolved)).with("unhandled", jcount(unhandled));
    assert(d.view() =~= seq![
        ("files"@, JsonV::Arr(iv)),
        ("totalSize"@, JsonV::Str(dec(total_size(iv, iv.len() as int)))),
        ("scanPath"@, JsonV::Str(resolved@)),
        ("unhandled"@, JsonV::Num(dec(unhandled as nat))),
    ]);
    let f: Fields = Fields::new().with("success", Json::Bool(true)).with("data", d.object());
    assert(f.view() =~= scan_reply(iv, resolved@, unhandled as nat)->Obj_0);
    (f.object(), p.object())
}

// ------------------------------------------------------------------ looking at an image

/// How large an image may be.
pub const IMAGE_MAX_BYTES: u64 = 10_485_760;

/// What `base64::engine::general_purpose::STANDARD` makes of bytes: their text in the
/// standard alphabet, with padding.
pub uninterp spec fn base64_of(bytes: Seq<u8>) -> Seq<char>;

/// `base64::Engine::encode` of `base64::engine::general_purpose::STANDARD`. Its result is
/// the name `base64_of` of the bytes. It panics only where the length of the text does not
/// fit into `usize`, which is left out.
#[verifier::external_body]
fn encode_base64(bytes: &Vec<u8>) -> (out: String)
    requires
        bytes.len() <= usize::MAX / 2,
    ensures
        out@ == base64_of(bytes@),
{
    base64::Engine::encode(&base64::engine::general_purpose::STANDARD, bytes)
}

/// Why an image is not shown: what the path and the window say, before the file is
/// looked at.
pub open spec fn image_refusal(s: Scopes, label: Seq<char>, path: Seq<char>) -> Option<Seq<char>> {
    if path.len() == 0 || byte_length(path) > MAX_PATH_LEN {
        Some("文件不存在"@)
    } else if slot_of(s, owner_of(label), path) is None {
        Some("路径不在扫描范围内，已拒绝访问"@)
    } else {
        None
    }
}

/// Whether an image may be read; otherwise the reply.
pub fn image_gate(s: &Scopes, label: &str, path: &str) -> (out: Result<(), Json>)
    requires
        s.wf(),
    ensures
        match out {
            Ok(_) => image_refusal(*s, label@, path@) is None,
            Err(r) => image_refusal(*s, label@, path@) matches Some(m) && r.view() == refused(m),
        },
{
    if path.unicode_len() == 0 || byte_len(path) > MAX_PATH_LEN as u128 {
        return Err(refuse("文件不存在"));
    }
    match find_slot(s, scope_owner(label), path) {
        Some(_) => Ok(()),
        None => Err(refuse("路径不在扫描范围内，已拒绝访问")),
    }
}

/// Why an image is not shown, given the size of the file where it is one.
pub open spec fn file_refusal(path: Seq<char>, size: Option<u64>) -> Option<Seq<char>> {
    match size {
        None => Some("文件不存在"@),
        Some(n) => if n > IMAGE_MAX_BYTES {
            Some("文件过大，不支持预览"@)
        } else if mime_of(extension_key(path)) is None {
            Some("仅支持预览图片文件（jpg/png/gif/bmp/webp/svg）"@)
        } else {
            None
        },
    }
}

/// Whether an image is shown, given the size of the file where it is one; otherwise the
/// reply.
pub fn image_file_gate(path: &str, size: Option<u64>) -> (out: Result<&'static str, Json>)
    ensures
        match out {
            Ok(m) => file_refusal(path@, size) is None && mime_of(extension_key(path@)) == Some(m@),
            Err(r) => file_refusal(path@, size) matches Some(m) && r.view() == refused(m),
        },
{
    let n: u64 = match size {
        Some(n) => n,
        None => {
            return Err(refuse("文件不存在"));
        },
    };
    if n > IMAGE_MAX_BYTES {
        return Err(refuse("文件过大，不支持预览"));
    }
    match image_mime(ext_of(path).as_str()) {
        Some(m) => Ok(m),
        None => Err(refuse("仅支持预览图片文件（jpg/png/gif/bmp/webp/svg）")),
    }
}

/// The reply that shows an image, given its text.
pub open spec fn image_data(mime: Seq<char>, text: Seq<char>, size: nat) -> JsonV {
    JsonV::Obj(
        seq![
            ("success"@, JsonV::Bool(true)),
            ("data"@, JsonV::Str("data:"@ + mime + ";base64,"@ + text)),
            ("size"@, JsonV::Num(dec(size))),
        ],
    )
}

/// The reply that shows an image, given its text.
pub fn image_reply(mime: &str, text: &str, size: u64) -> (out: Json)
    ensures
        out.view() == image_data(mime@, text@, size as nat),
{
    let head: String = cat3("data:", mime, ";base64,");
    let f: Fields = Fields::new().with("success", Json::Bool(true)).with(
        "data",
        jtext(cat(head.as_str(), text).as_str()),
    ).with("size", jcount(size));
    assert(f.view() =~= image_data(mime@, text@, size as nat)->Obj_0);
    f.object()
}

/// The reply that shows an image, given what was read of the file.
pub fn read_image(mime: &str, bytes: &Option<Vec<u8>>, size: u64) -> (out: Json)
    requires
        bytes matches Some(b) ==> b.len() <= usize::MAX / 2,
    ensures
        match bytes {
            Some(b) => out.view() == image_data(mime@, base64_of(b@), size as nat),
            None => out.view() == refused("文件不存在"@),
        },
{
    match bytes {
        Some(b) => image_reply(mime, encode_base64(b).as_str(), size),
        None => refuse("文件不存在"),
    }
}

// ---------------------------------------------------------------------------- deleting

/// Why a file is not deleted.
pub open spec fn delete_refusal(
    s: Scopes,
    label: Seq<char>,
    path: Seq<char>,
    is_file: bool,
) -> Option<Seq<char>> {
    if path.len() == 0 || byte_length(path) > MAX_PATH_LEN {
        Some("文件不存在"@)
    } else if slot_of(s, owner_of(label), path) is None {
        Some("路径不在扫描范围内，已拒绝删除"@)
    } else if !is_file {
        Some("目标不是普通文件，已拒绝删除"@)
    } else {
        None
    }
}

/// Whether a file may be deleted, and for which kind of program it was found; otherwise
/// the reply. Nothing may be deleted before this was asked.
pub fn delete_gate(s: &Scopes, label: &str, path: &str, is_file: bool) -> (out: Result<
    &'static str,
    Json,
>)
    requires
        s.wf(),
    ensures
        match out {
            Ok(t) => delete_refusal(*s, label@, path@, is_file) is None && slot_of(
                *s,
                owner_of(label@),
                path@,
            ) == Some(t@),
            Err(r) => delete_refusal(*s, label@, path@, is_file) matches Some(m) && r.view()
                == refused(m),
        },
{
    if path.unicode_len() == 0 || byte_len(path) > MAX_PATH_LEN as u128 {
        return Err(refuse("文件不存在"));
    }
    match find_slot(s, scope_owner(label), path) {
        None => Err(refuse("路径不在扫描范围内，已拒绝删除")),
        Some(t) => if is_file {
            Ok(t)
        } else {
            Err(refuse("目标不是普通文件，已拒绝删除"))
        },
    }
}

/// What is written down of a file that was deleted; the size stands under the given name.
pub open spec fn file_entry(path: Seq<char>, key: Seq<char>, size: nat) -> JsonV {
    JsonV::Obj(
        seq![
            ("path"@, JsonV::Str(replaced(path, '/', '\\'))),
            ("kind"@, JsonV::Str("file"@)),
            (key, JsonV::Num(dec(size))),
            ("recycled"@, JsonV::Bool(true)),
        ],
    )
}

fn make_file_entry(path: &str, key: &str, size: u64) -> (out: Json)
    ensures
        out.view() == file_entry(path@, key@, size as nat),
{
    let f: Fields = Fields::new().with(
        "path",
        jtext(replace_char(path, '/', '\\').as_str()),
    ).with("kind", jtext("file")).with(key, jcount(size)).with("recycled", Json::Bool(true));
    assert(f.view() =~= file_entry(path@, key@, size as nat)->Obj_0);
    f.object()
}

/// The reply that a file went to the recycle bin.
pub open spec fn deleted_reply(batch: Seq<char>) -> JsonV {
    JsonV::Obj(
        seq![
            ("success"@, JsonV::Bool(true)),
            ("recycled"@, JsonV::Bool(true)),
            ("manifestPath"@, JsonV::Str("deleted-"@ + batch + ".json"@)),
        ],
    )
}

/// The end of a deletion: the reply, and what is written down of it. A file that went to
/// the recycle bin is no longer among what was found; one that did not stays there.
pub fn finish_delete(
    scopes: &mut Scopes,
    label: &str,
    ty: &str,
    path: &str,
    size: u64,
    failure: &Option<String>,
    batch: &str,
) -> (out: (Json, Option<Json>))
    requires
        old(scopes).wf(),
    ensures
        final(scopes).wf(),
        match failure {
            Some(m) => final(scopes).view() == old(scopes).view() && out.0.view() == refused(m@)
                && out.1 is None,
            None => {
                &&& final(scopes).view() == (match old(scopes).at(owner_of(label@), ty@) {
                    Some(s) => old(scopes).view().insert(
                        slot_name(owner_of(label@), ty@),
                        without_files(s, set![key_of(path@)]),
                    ),
                    None => old(scopes).view(),
                })
                &&& out.0.view() == deleted_reply(batch@)
                &&& out.1 matches Some(e) && e.view() == file_entry(path@, "size"@, size as nat)
            },
        },
{
    if let Some(m) = failure {
        return (refuse(m.as_str()), None);
    }
    let mut keys: Vec<String> = Vec::new();
    keys.push(path_key(path));
    proof {
        let kv = texts(keys@);
        assert(kv =~= seq![key_of(path@)]);
        assert(kv.to_set() =~= set![key_of(path@)]) by {
            assert(kv[0] == key_of(path@));
        }
    }
    scopes.forget(scope_owner(label), ty, &keys);
    let f: Fields = Fields::new().with("success", Json::Bool(true)).with(
        "recycled",
        Json::Bool(true),
    ).with("manifestPath", jtext(cat3("deleted-", batch, ".json").as_str()));
    assert(f.view() =~= deleted_reply(batch@)->Obj_0);
    (f.object(), Some(make_file_entry(path, "size", size)))
}

/// The path of a file that is named in a request.
pub open spec fn path_named(v: JsonV) -> Seq<char> {
    match text_member(v, "path"@) {
        Some(p) => p,
        None => Seq::empty(),
    }
}

/// Why the files from `i` on are not deleted, given which of them are plain files.
pub open spec fn files_refusal(
    s: ScopeV,
    files: Seq<JsonV>,
    plain: Seq<bool>,
    i: int,
) -> Option<Seq<char>>
    decreases files.len() - i,
{
    if i < 0 || i >= files.len() {
        None
    } else if !covers(s, path_named(files[i])) {
        Some("包含不在扫描范围内的路径，已拒绝整批"@)
    } else if !plain[i] {
        Some("包含非普通文件，已拒绝整批"@)
    } else {
        files_refusal(s, files, plain, i + 1)
    }
}

/// For which kind of program the files were found; otherwise why none is deleted.
pub open spec fn batch_type(
    s: Scopes,
    label: Seq<char>,
    files: Seq<JsonV>,
    plain: Seq<bool>,
) -> Result<Seq<char>, Seq<char>> {
    if files.len() == 0 {
        Err("没有选中文件"@)
    } else {
        match slot_of(s, label, path_named(files[0])) {
            None => Err("至少一个文件不在扫描范围内，已拒绝整批"@),
            Some(t) => match files_refusal(s.at(label, t)->0, files, plain, 0) {
                Some(m) => Err(m),
                None => Ok(t),
            },
        }
    }
}

fn read_path(v: &Json) -> (out: String)
    ensures
        out@ == path_named(v.view()),
{
    match v.text("path") {
        Some(p) => p.to_owned(),
        None => {
            let none: String = String::new();
            assert(none@ =~= Seq::empty());
            none
        },
    }
}

/// For which kind of program the files were found, all of them by one search; otherwise
/// the reply. Nothing may be deleted before this was asked.
pub fn execute_gate(s: &Scopes, label: &str, files: &Vec<Json>, plain: &Vec<bool>) -> (out: Result<
    &'static str,
    Json,
>)
    requires
        s.wf(),
        plain.len() == files.len(),
    ensures
        match out {
            Ok(t) => batch_type(*s, label@, values(files@), plain@)
                == Ok::<Seq<char>, Seq<char>>(t@),
            Err(r) => batch_type(*s, label@, values(files@), plain@) matches Err(m) && r.view()
                == refused(m),
        },
{
    let ghost fv = values(files@);
    assert(fv.len() == files@.len());
    if files.len() == 0 {
        return Err(refuse("没有选中文件"));
    }
    assert(fv[0] == files@[0].view());
    let first: String = read_path(&files[0]);
    let ty: &'static str = match find_slot(s, label, first.as_str()) {
        Some(t) => t,
        None => {
            return Err(refuse("至少一个文件不在扫描范围内，已拒绝整批"));
        },
    };
    match s.get(label, ty) {
        None => Err(refuse("至少一个文件不在扫描范围内，已拒绝整批")),
        Some(scope) => {
            let mut i: usize = 0;
            while i < files.len()
                invariant
                    i <= files@.len(),
                    fv == values(files@),
                    fv.len() == files@.len(),
                    plain.len() == files.len(),
                    files_refusal(scope.view(), fv, plain@, 0) == files_refusal(
                        scope.view(),
                        fv,
                        plain@,
                        i as int,
                    ),
                    files@.len() > 0,
                    slot_of(*s, label@, path_named(fv[0])) == Some(ty@),
                    s.at(label@, ty@) == Some(scope.view()),
                decreases files@.len() - i,
            {
                assert(fv[i as int] == files@[i as int].view());
                let p: String = read_path(&files[i]);
                if !in_scope(scope, p.as_str()) {
                    return Err(refuse("包含不在扫描范围内的路径，已拒绝整批"));
                }
                if !plain[i] {
                    return Err(refuse("包含非普通文件，已拒绝整批"));
                }
                i += 1;
            }
            Ok(ty)
        },
    }
}

/// What became of a file: its size, and why it could not be moved to the recycle bin.
#[derive(Debug)]
pub struct Removed {
    pub size: u64,
    pub failure: Option<String>,
}

/// What is told of a file.
pub open spec fn file_detail(path: Seq<char>, r: Removed) -> JsonV {
    JsonV::Obj(
        seq![
            ("path"@, JsonV::Str(path)),
            (
                "status"@,
                JsonV::Str(
                    if r.failure is None {
                        "ok"@
                    } else {
                        "error"@
                    },
                ),
            ),
            (
                "freed"@,
                JsonV::Num(
                    dec(
                        if r.failure is None {
                            r.size as nat
                        } else {
                            0
                        },
                    ),
                ),
            ),
            (
                "message"@,
                match r.failure {
                    None => JsonV::Null,
                    Some(m) => JsonV::Str(m@),
                },
            ),
        ],
    )
}

/// What came of a request: the bytes freed, how many files went, how many did not, what
/// is told of each, what is written down, and the keys of those that went.
pub struct BatchV {
    pub freed: nat,
    pub success: nat,
    pub failed: nat,
    pub details: Seq<JsonV>,
    pub entries: Seq<JsonV>,
    pub keys: Seq<Seq<char>>,
}

/// What came of the first `n` files.
pub open spec fn batch_of(files: Seq<JsonV>, results: Seq<Removed>, n: int) -> BatchV
    decreases n,
{
    if n <= 0 {
        BatchV {
            freed: 0,
            success: 0,
            failed: 0,
            details: Seq::empty(),
            entries: Seq::empty(),
            keys: Seq::empty(),
        }
    } else {
        let b = batch_of(files, results, n - 1);
        let p = path_named(files[n - 1]);
        let r = results[n - 1];
        let details = b.details.push(file_detail(p, r));
        if r.failure is None {
            BatchV {
                freed: cap64(b.freed + r.size as nat),
                success: b.success + 1,
                failed: b.failed,
                details,
                entries: b.entries.push(file_entry(p, "freed"@, r.size as nat)),
                keys: b.keys.push(key_of(p)),
            }
        } else {
            BatchV { failed: b.failed + 1, details, ..b }
        }
    }
}

/// The reply to a request.
pub open spec fn batch_reply(b: BatchV) -> JsonV {
    JsonV::Obj(
        seq![
            ("success"@, JsonV::Bool(true)),
            (
                "data"@,
                JsonV::Obj(
                    seq![
                        ("totalFreed"@, JsonV::Str(dec(b.freed))),
                        ("success"@, JsonV::Num(dec(b.success))),
                        ("failed"@, JsonV::Num(dec(b.failed))),
                        ("recycled"@, JsonV::Num(dec(b.success))),
                        ("details"@, JsonV::Arr(b.details)),
                    ],
                ),
            ),
        ],
    )
}

fn make_detail(path: &str, r: &Removed) -> (out: Json)
    ensures
        out.view() == file_detail(path@, *r),
{
    let f: Fields = match &r.failure {
        None => Fields::new().with("path", jtext(path)).with("status", jtext("ok")).with(
            "freed",
            jcount(r.size),
        ).with("message", Json::Null),
        Some(m) => Fields::new().with("path", jtext(path)).with("status", jtext("error")).with(
            "freed",
            jcount(0),
        ).with("message", jtext(m.as_str())),
    };
    assert(f.view() =~= file_detail(path@, *r)->Obj_0);
    f.object()
}

/// The end of a request: the reply, and what is written down of it. Files that went to
/// the recycle bin are no longer among what was found.
pub fn finish_execute(
    scopes: &mut Scopes,
    label: &str,
    ty: &str,
    files: &Vec<Json>,
    results: &Vec<Removed>,
) -> (out: (Json, Vec<Json>))
    requires
        old(scopes).wf(),
        results.len() == files.len(),
    ensures
        final(scopes).wf(),
        ({
            let b = batch_of(values(files@), results@, files@.len() as int);
            &&& out.0.view() == batch_reply(b)
            &&& values(out.1@) == b.entries
            &&& final(scopes).view() == (match old(scopes).at(label@, ty@) {
                Some(s) => old(scopes).view().insert(
                    slot_name(label@, ty@),
                    without_files(s, b.keys.to_set()),
                ),
                None => old(scopes).view(),
            })
        }),
{
    let ghost fv = values(files@);
    let mut freed: u64 = 0;
    let mut success: usize = 0;
    let mut failed: usize = 0;
    let mut details: Vec<Json> = Vec::new();
    let mut entries: Vec<Json> = Vec::new();
    let mut keys: Vec<String> = Vec::new();
    let mut i: usize = 0;
    assert(values(details@) =~= Seq::empty());
    assert(values(entries@) =~= Seq::empty());
    assert(texts(keys@) =~= Seq::empty());
    while i < files.len()
        invariant
            i <= files.len(),
            fv == values(files@),
            results.len() == files.len(),
            success + failed == i,
            batch_of(fv, results@, i as int) == (BatchV {
                freed: freed as nat,
                success: success as nat,
                failed: failed as nat,
                details: values(details@),
                entries: values(entries@),
                keys: texts(keys@),
            }),
        decreases files@.len() - i,
    {
        assert(fv[i as int] == files@[i as int].view());
        let p: String = read_path(&files[i]);
        let r: &Removed = &results[i];
        let d: Json = make_detail(p.as_str(), r);
        proof {
            lemma_values_push(details@, d);
        }
        details.push(d);
        match &r.failure {
            None => {
                freed = if r.size > u64::MAX - freed {
                    u64::MAX
                } else {
                    freed + r.size
                };
                success += 1;
                let e: Json = make_file_entry(p.as_str(), "freed", r.size);
                let k: String = path_key(p.as_str());
                proof {
                    lemma_values_push(entries@, e);
                    crate::text::lemma_texts_push(keys@, k);
                }
                entries.push(e);
                keys.push(k);
            },
            Some(_) => {
                failed += 1;
            },
        }
        i += 1;
    }
    let ghost b = batch_of(fv, results@, files@.len() as int);
    scopes.forget(label, ty, &keys);
    let d: Fields = Fields::new().with("totalFreed", jtext(decimal(freed).as_str())).with(
        "success",
        jcount(success as u64),
    ).with("failed", jcount(failed as u64)).with("recycled", jcount(success as u64)).with(
        "details",
        jarray(details),
    );
    assert(d.view() =~= seq![
        ("totalFreed"@, JsonV::Str(dec(b.freed))),
        ("success"@, JsonV::Num(dec(b.success))),
        ("failed"@, JsonV::Num(dec(b.failed))),
        ("recycled"@, JsonV::Num(dec(b.success))),
        ("details"@, JsonV::Arr(b.details)),
    ]);
    let f: Fields = Fields::new().with("success", Json::Bool(true)).with("data", d.object());
    assert(f.view() =~= batch_reply(b)->Obj_0);
    (f.object(), entries)
}

// -------------------------------------------------------------------------------- laws

/// One file that was not found by the search makes a request fail as a whole.
pub proof fn law_foreign_file_refuses_all(
    s: Scopes,
    label: Seq<char>,
    files: Seq<JsonV>,
    plain: Seq<bool>,
    i: int,
)
    requires
        0 <= i < files.len(),
        s.at(label, "qq"@) matches Some(q) ==> !covers(q, path_named(files[i])),
        s.at(label, "wechat"@) matches Some(w) ==> !covers(w, path_named(files[i])),
    ensures
        batch_type(s, label, files, plain) is Err,
{
    if let Some(t) = slot_of(s, label, path_named(files[0])) {
        lemma_files_refusal(s.at(label, t)->0, files, plain, i, 0);
    }
}

proof fn lemma_files_refusal(s: ScopeV, files: Seq<JsonV>, plain: Seq<bool>, i: int, from: int)
    requires
        0 <= from <= i < files.len(),
        !covers(s, path_named(files[i])),
    ensures
        files_refusal(s, files, plain, from) is Some,
    decreases i - from,
{
    if from < i {
        lemma_files_refusal(s, files, plain, i, from + 1);
    }
}

/// A file that was deleted cannot be deleted once more: it is no longer covered by what
/// was found.
pub proof fn law_deleted_is_forgotten(s: ScopeV, path: Seq<char>, keys: Set<Seq<char>>)
    requires
        keys.contains(key_of(path)),
    ensures
        !covers(without_files(s, keys), path),
{
}

/// What is covered after files were taken out was covered before.
pub proof fn law_forgetting_adds_nothing(s: ScopeV, path: Seq<char>, keys: Set<Seq<char>>)
    requires
        covers(without_files(s, keys), path),
    ensures
        covers(s, path),
{
}

/// The preview sees what the main window has found; every other window sees only what it
/// has found itself.
pub proof fn law_preview_reads_main(s: Scopes, label: Seq<char>, path: Seq<char>)
    ensures
        slot_of(s, owner_of("preview"@), path) == slot_of(s, "main"@, path),
        label != "preview"@ ==> slot_of(s, owner_of(label), path) == slot_of(s, label, path),
{
}

/// A search reports no file of the first directory itself, and none without an exact
/// name.
pub proof fn law_not_reported(w: WalkV, dir: Seq<char>, depth: nat, f: FoundV)
    requires
        depth == 0 || !f.exact,
    ensures
        after_entry(w, dir, depth, f).items == w.items,
{
}

/// A search never reports more than the limit, and never goes deeper than it may.
pub proof fn law_walk_limits(w: WalkV, dir: Seq<char>, depth: nat, f: FoundV)
    requires
        w.items.len() <= MAX_FILES,
        forall|i: int| 0 <= i < w.queue.len() ==> (#[trigger] w.queue[i]).1 <= MAX_DEPTH,
    ensures
        after_entry(w, dir, depth, f).items.len() <= MAX_FILES,
        forall|i: int|
            0 <= i < after_entry(w, dir, depth, f).queue.len() ==> (#[trigger] after_entry(
                w,
                dir,
                depth,
                f,
            ).queue[i]).1 <= MAX_DEPTH,
{
}

/// Only files with the extension `dat` count as data: no database and no key does.
pub proof fn law_data_is_dat(ext: Seq<char>)
    requires
        kind_of_ext(ext) == Some("data"@),
    ensures
        ext == "dat"@,
{
    reveal_strlit("data");
    reveal_strlit("image");
    reveal_strlit("video");
    reveal_strlit("cache");
    assert("data"@.len() == 4 && "image"@.len() == 5 && "video"@.len() == 5 && "cache"@.len() == 5);
}

} // verus!
