//! What the cleanup scan knows of the machine: the paths it was told about with
//! the trees below them, the registry keys, the environment and the programs
//! that run.

use crate::rulepath::Env;
use crate::text::{same, texts, to_ascii_upper};
use vstd::prelude::*;

verus! {

/// What an entry of a directory is, or what a path that was asked for leads to. A link that
/// lies in a directory is neither a file nor a directory, whatever it leads to: it is
/// `Other`.
#[derive(Clone, Copy, Debug, PartialEq, Eq, Structural)]
pub enum Kind {
    File,
    Dir,
    Other,
}

/// One entry of a directory, or one path that was asked for. `reparse` tells whether
/// the entry itself is a reparse point (a link, a mount point, a placeholder), `openable`
/// whether the file could be opened for reading with no sharing, `long` is the
/// long form of the path where the system knows one, and `children` holds the
/// entries of a directory that could be listed; `problem` says why another
/// could not.
#[derive(Debug)]
pub struct Entry {
    pub name: String,
    pub path: String,
    pub kind: Kind,
    pub reparse: bool,
    pub hidden: bool,
    pub size: u64,
    pub openable: bool,
    pub long: Option<String>,
    pub children: Option<Vec<Entry>>,
    pub problem: String,
}

/// The root keys of the registry.
#[derive(Clone, Copy, Debug, PartialEq, Eq, Structural)]
pub enum Hive {
    CurrentUser,
    LocalMachine,
    ClassesRoot,
    Users,
    CurrentConfig,
}

/// A registry key that exists, with its numbers of values and of subkeys where
/// they could be read.
#[derive(Debug)]
pub struct RegKey {
    pub hive: Hive,
    pub subkey: String,
    pub counts: Option<(u32, u32)>,
}

/// A program that holds a file open: its process, the name of the application
/// and the kind of application that the system reports.
#[derive(Debug)]
pub struct Holder {
    pub pid: u32,
    pub app: String,
    pub kind: u32,
}

/// A snapshot of the machine. A path that is not among `places` does not exist;
/// `holders` lists the programs that hold a file open.
#[derive(Debug)]
pub struct World {
    pub env: Env,
    pub places: Vec<(String, Entry)>,
    pub keys: Vec<RegKey>,
    pub programs: Vec<String>,
    pub holders: Vec<(String, Vec<Holder>)>,
}

/// The first place with the given path.
pub open spec fn place_in(places: Seq<(String, Entry)>, path: Seq<char>) -> Option<Entry>
    decreases places.len(),
{
    if places.len() == 0 {
        None
    } else if places[0].0@ == path {
        Some(places[0].1)
    } else {
        place_in(places.skip(1), path)
    }
}

impl World {
    /// What a path leads to.
    pub open spec fn at(self, path: Seq<char>) -> Option<Entry> {
        place_in(self.places@, path)
    }

    /// Whether a path exists. The empty path does not.
    pub open spec fn has(self, path: Seq<char>) -> bool {
        path.len() > 0 && self.at(path) is Some
    }

    /// Whether a path leads to a directory.
    pub open spec fn has_dir(self, path: Seq<char>) -> bool {
        path.len() > 0 && (self.at(path) matches Some(e) && e.kind == Kind::Dir)
    }

    /// The entries of the directory at a path; none where it cannot be listed.
    pub open spec fn listing(self, path: Seq<char>) -> Seq<Entry> {
        match self.at(path) {
            Some(e) => match e.children {
                Some(c) => c@,
                None => Seq::empty(),
            },
            None => Seq::empty(),
        }
    }

    /// What a path leads to.
    pub fn find(&self, path: &str) -> (out: Option<&Entry>)
        ensures
            match out {
                Some(e) => self.at(path@) == Some(*e),
                None => self.at(path@) is None,
            },
    {
        let mut i: usize = 0;
        assert(self.places@.skip(0) =~= self.places@);
        while i < self.places.len()
            invariant
                i <= self.places@.len(),
                self.at(path@) == place_in(self.places@.skip(i as int), path@),
            decreases self.places@.len() - i,
        {
            assert(self.places@.skip(i as int).skip(1) =~= self.places@.skip(i + 1));
            if same(self.places[i].0.as_str(), path) {
                return Some(&self.places[i].1);
            }
            i += 1;
        }
        None
    }

    /// Whether a path exists.
    pub fn path_exists(&self, path: &str) -> (out: bool)
        ensures
            out == self.has(path@),
    {
        path.unicode_len() > 0 && self.find(path).is_some()
    }

    /// Whether a path leads to a directory.
    pub fn is_container(&self, path: &str) -> (out: bool)
        ensures
            out == self.has_dir(path@),
    {
        if path.unicode_len() == 0 {
            return false;
        }
        match self.find(path) {
            Some(e) => e.kind == Kind::Dir,
            None => false,
        }
    }
}

// -------------------------------------------------------------------- registry

/// The root key with the given short name, in either case.
pub open spec fn hive_named(name: Seq<char>) -> Option<Hive> {
    let n = crate::text::ascii_uppercase(name);
    if n == "HKCU"@ {
        Some(Hive::CurrentUser)
    } else if n == "HKLM"@ {
        Some(Hive::LocalMachine)
    } else if n == "HKCR"@ {
        Some(Hive::ClassesRoot)
    } else if n == "HKU"@ {
        Some(Hive::Users)
    } else if n == "HKCC"@ {
        Some(Hive::CurrentConfig)
    } else {
        None
    }
}

/// The position of the first backslash.
pub open spec fn first_backslash(s: Seq<char>, i: int) -> Option<int>
    decreases s.len() - i,
{
    if i < 0 || i >= s.len() {
        None
    } else if s[i] == '\\' {
        Some(i)
    } else {
        first_backslash(s, i + 1)
    }
}

/// A registry path split into its root key and the rest.
pub open spec fn hive_path(path: Seq<char>) -> Option<(Hive, Seq<char>)> {
    match first_backslash(path, 0) {
        None => None,
        Some(i) => match hive_named(path.subrange(0, i)) {
            Some(h) => Some((h, path.subrange(i + 1, path.len() as int))),
            None => None,
        },
    }
}

/// Splits a registry path into its root key and the rest.
pub fn map_hive(reg_path: &str) -> (out: Option<(Hive, String)>)
    ensures
        match out {
            Some((h, rest)) => hive_path(reg_path@) == Some((h, rest@)),
            None => hive_path(reg_path@) is None,
        },
{
    let s: Vec<char> = crate::text::chars_of(reg_path);
    let mut i: usize = 0;
    while i < s.len() && s[i] != '\\'
        invariant
            i <= s@.len(),
            first_backslash(s@, 0) == first_backslash(s@, i as int),
        decreases s@.len() - i,
    {
        i += 1;
    }
    if i >= s.len() {
        return None;
    }
    let name: String = to_ascii_upper(crate::text::string_of(&s, 0, i).as_str());
    let rest: String = crate::text::string_of(&s, i + 1, s.len());
    if same(name.as_str(), "HKCU") {
        Some((Hive::CurrentUser, rest))
    } else if same(name.as_str(), "HKLM") {
        Some((Hive::LocalMachine, rest))
    } else if same(name.as_str(), "HKCR") {
        Some((Hive::ClassesRoot, rest))
    } else if same(name.as_str(), "HKU") {
        Some((Hive::Users, rest))
    } else if same(name.as_str(), "HKCC") {
        Some((Hive::CurrentConfig, rest))
    } else {
        None
    }
}

/// The first of the existing keys with the given root and subkey.
pub open spec fn key_in(keys: Seq<RegKey>, hive: Hive, subkey: Seq<char>) -> Option<RegKey>
    decreases keys.len(),
{
    if keys.len() == 0 {
        None
    } else if keys[0].hive == hive && keys[0].subkey@ == subkey {
        Some(keys[0])
    } else {
        key_in(keys.skip(1), hive, subkey)
    }
}

impl World {
    /// The registry key that a path with a short root name leads to.
    pub open spec fn key_at(self, path: Seq<char>) -> Option<RegKey> {
        match hive_path(path) {
            Some((h, rest)) => key_in(self.keys@, h, rest),
            None => None,
        }
    }
}

fn find_key<'a>(world: &'a World, reg_path: &str) -> (out: Option<&'a RegKey>)
    ensures
        match out {
            Some(k) => world.key_at(reg_path@) == Some(*k),
            None => world.key_at(reg_path@) is None,
        },
{
    let (hive, rest): (Hive, String) = match map_hive(reg_path) {
        Some(r) => r,
        None => return None,
    };
    let mut i: usize = 0;
    assert(world.keys@.skip(0) =~= world.keys@);
    while i < world.keys.len()
        invariant
            i <= world.keys@.len(),
            world.key_at(reg_path@) == key_in(world.keys@.skip(i as int), hive, rest@),
        decreases world.keys@.len() - i,
    {
        assert(world.keys@.skip(i as int).skip(1) =~= world.keys@.skip(i + 1));
        if world.keys[i].hive == hive && same(world.keys[i].subkey.as_str(), rest.as_str()) {
            return Some(&world.keys[i]);
        }
        i += 1;
    }
    None
}

/// Whether a registry key exists. A path without a known root name has none.
pub fn reg_key_exists(reg_path: &str, world: &World) -> (out: bool)
    ensures
        out == (world.key_at(reg_path@) is Some),
{
    find_key(world, reg_path).is_some()
}

/// The numbers of values and of subkeys of a registry key, where it exists and
/// they could be read.
pub fn reg_key_counts(reg_path: &str, world: &World) -> (out: Option<(u32, u32)>)
    ensures
        out == (match world.key_at(reg_path@) {
            Some(k) => k.counts,
            None => None,
        }),
{
    match find_key(world, reg_path) {
        Some(k) => k.counts,
        None => None,
    }
}

// -------------------------------------------------------------------- programs

/// The name of a program: its file name in lower case, without `.exe`.
pub open spec fn program_name(exe: Seq<char>) -> Seq<char> {
    let low = crate::text::lowercase(exe);
    if ".exe"@.is_suffix_of(low) {
        low.take(low.len() - ".exe"@.len())
    } else {
        low
    }
}

/// The names of the programs that run, each once, in the order in which they
/// first occur; a program without a name is left out.
pub open spec fn names_of(exes: Seq<String>, n: int) -> Seq<Seq<char>>
    decreases n,
{
    if n <= 0 {
        Seq::empty()
    } else {
        let before = names_of(exes, n - 1);
        let name = program_name(exes[n - 1]@);
        if name.len() == 0 || before.contains(name) {
            before
        } else {
            before.push(name)
        }
    }
}

/// The name of a program: its file name in lower case, without `.exe`.
pub fn program_name_of(exe: &str) -> (out: String)
    ensures
        out@ == program_name(exe@),
{
    let low: String = exe.to_lowercase();
    proof {
        reveal_strlit(".exe");
    }
    if crate::text::ends_with(low.as_str(), ".exe") {
        let a: Vec<char> = crate::text::chars_of(low.as_str());
        assert(a@.subrange(0, a@.len() - 4) =~= low@.take(low@.len() - 4));
        crate::text::string_of(&a, 0, a.len() - 4)
    } else {
        low
    }
}

/// The names of the programs that run.
pub fn process_names(world: &World) -> (out: Vec<String>)
    ensures
        texts(out@) == names_of(world.programs@, world.programs@.len() as int),
        texts(out@).no_duplicates(),
{
    let mut out: Vec<String> = Vec::new();
    let mut i: usize = 0;
    assert(texts(out@) =~= Seq::empty());
    while i < world.programs.len()
        invariant
            i <= world.programs@.len(),
            texts(out@) == names_of(world.programs@, i as int),
            texts(out@).no_duplicates(),
        decreases world.programs@.len() - i,
    {
        let name: String = program_name_of(world.programs[i].as_str());
        if name.as_str().unicode_len() > 0 && !crate::text::listed(&out, name.as_str()) {
            proof {
                crate::text::lemma_texts_push(out@, name);
            }
            out.push(name);
        }
        i += 1;
    }
    out
}

} // verus!
