//! What is known of modules from the last time they were cleanly built.
//!
//! This enables skipping verification for modules that haven't changed. The cache is read once at
//! startup, and whole files are written at a time when needed.

use vstd::prelude::*;

use crate::operators::{find_dot, next_dot};
use crate::text::{chars_of, same_text, views};

verus! {

/// Which module is meant.
#[derive(Debug)]
pub enum ModuleDescriptor {
    /// One without a name.
    Anonymous,
    /// One that can be imported by this name, with dots between its parts.
    Name(String),
    /// A file that cannot be imported.
    File(String),
}

/// The model of a module descriptor.
pub enum DescriptorV {
    Anonymous,
    Name(Seq<char>),
    File(Seq<char>),
}

impl View for ModuleDescriptor {
    type V = DescriptorV;

    open spec fn view(&self) -> DescriptorV {
        match self {
            ModuleDescriptor::Anonymous => DescriptorV::Anonymous,
            ModuleDescriptor::Name(s) => DescriptorV::Name(s@),
            ModuleDescriptor::File(s) => DescriptorV::File(s@),
        }
    }
}

/// A text that stands for a module descriptor.
pub open spec fn descriptor_key(d: DescriptorV) -> Seq<char> {
    match d {
        DescriptorV::Anonymous => Seq::empty(),
        DescriptorV::Name(s) => seq!['n'] + s,
        DescriptorV::File(s) => seq!['f'] + s,
    }
}

/// Different module descriptors have different keys.
pub proof fn law_keys_are_distinct(a: DescriptorV, b: DescriptorV)
    ensures
        descriptor_key(a) == descriptor_key(b) ==> a == b,
{
    let x = descriptor_key(a);
    let y = descriptor_key(b);
    if x == y {
        match (a, b) {
            (DescriptorV::Name(s), DescriptorV::Name(t)) => {
                assert(x.skip(1) =~= s);
                assert(y.skip(1) =~= t);
            },
            (DescriptorV::File(s), DescriptorV::File(t)) => {
                assert(x.skip(1) =~= s);
                assert(y.skip(1) =~= t);
            },
            (DescriptorV::Name(_), DescriptorV::File(_)) => {
                assert(x[0] == 'n' && y[0] == 'f');
            },
            (DescriptorV::File(_), DescriptorV::Name(_)) => {
                assert(x[0] == 'f' && y[0] == 'n');
            },
            _ => {
                assert(x.len() == y.len());
            },
        }
    }
}

impl ModuleDescriptor {
    /// A text that stands for the module descriptor.
    pub fn to_key(&self) -> (r: String)
        ensures
            r@ == descriptor_key(self@),
    {
        match self {
            ModuleDescriptor::Anonymous => {
                let r = String::new();
                assert(r@ =~= Seq::<char>::empty());
                r
            },
            ModuleDescriptor::Name(s) => {
                let mut out = "n".to_owned();
                proof {
                    reveal_strlit("n");
                    assert("n"@ =~= seq!['n']);
                }
                out.append(s.as_str());
                out
            },
            ModuleDescriptor::File(s) => {
                let mut out = "f".to_owned();
                proof {
                    reveal_strlit("f");
                    assert("f"@ =~= seq!['f']);
                }
                out.append(s.as_str());
                out
            },
        }
    }
}

/// The concurrent map of the `dashmap` crate.
#[verifier::external_type_specification]
#[verifier::external_body]
#[verifier::reject_recursive_types(K)]
#[verifier::reject_recursive_types(V)]
#[verifier::reject_recursive_types(S)]
pub struct ExDashMap<K, V, S>(dashmap::DashMap<K, V, S>);

/// What a concurrent map holds.
pub uninterp spec fn entries(m: dashmap::DashMap<String, String>) -> Map<Seq<char>, Seq<char>>;

/// `DashMap::new`: a map that holds nothing.
#[verifier::external_body]
fn new_map() -> (r: dashmap::DashMap<String, String>)
    ensures
        entries(r).dom() == Set::<Seq<char>>::empty(),
{
    dashmap::DashMap::new()
}

/// `DashMap::get`: a copy of the value that the map holds for a key, where there is one.
#[verifier::external_body]
fn map_get(m: &dashmap::DashMap<String, String>, key: &str) -> (r: Option<String>)
    ensures
        match r {
            Some(v) => entries(*m).dom().contains(key@) && v@ == entries(*m)[key@],
            None => !entries(*m).dom().contains(key@),
        },
{
    match m.get(key) {
        Some(entry) => Some(entry.value().clone()),
        None => None,
    }
}

/// `DashMap::insert`: the map holds the value for the key, and what it held for it before is
/// returned. The map is borrowed mutably, so that nothing else refers into it.
#[verifier::external_body]
fn map_insert(m: &mut dashmap::DashMap<String, String>, key: String, value: String) -> (r: Option<
    String,
>)
    ensures
        entries(*final(m)) == entries(*old(m)).insert(key@, value@),
        match r {
            Some(v) => entries(*old(m)).dom().contains(key@) && v@ == entries(*old(m))[key@],
            None => !entries(*old(m)).dom().contains(key@),
        },
{
    m.insert(key, value)
}

/// `DashMap::len`: how many keys the map holds a value for.
#[verifier::external_body]
fn map_len(m: &dashmap::DashMap<String, String>) -> (r: usize)
    ensures
        r == entries(*m).dom().len(),
{
    m.len()
}

/// The build cache. What is known of a module is a text, such as its hash.
pub struct BuildCache {
    // The internal map from the key of a module descriptor to what is known of the module.
    inner: dashmap::DashMap<String, String>,
    // A directory to persist the cache in.
    directory: Option<String>,
    // Whether it's okay to write to the cache directory. If false, the cache will not be saved to
    // disk.
    writable: bool,
}

/// The model of a build cache.
#[verifier::ext_equal]
pub struct CacheV {
    pub modules: Map<Seq<char>, Seq<char>>,
    pub directory: Option<Seq<char>>,
    pub writable: bool,
}

impl View for BuildCache {
    type V = CacheV;

    closed spec fn view(&self) -> CacheV {
        CacheV {
            modules: entries(self.inner),
            directory: crate::binding_map::opt_view(self.directory),
            writable: self.writable,
        }
    }
}

/// The parts of a name, from a place on: what stands between the dots.
pub open spec fn parts_from(s: Seq<char>, i: int) -> Seq<Seq<char>>
    decreases s.len() - i,
{
    let dot = next_dot(s, i);
    if i < 0 || dot < i || dot >= s.len() {
        seq![s.skip(i)]
    } else {
        seq![s.subrange(i, dot)] + parts_from(s, dot + 1)
    }
}

/// Where a module is saved: the directories to go through, and the name of the file in the last.
#[derive(Debug)]
pub struct SavePath {
    pub directories: Vec<String>,
    pub file: String,
}

/// The model of where a module is saved.
#[verifier::ext_equal]
pub struct SavePathV {
    pub directories: Seq<Seq<char>>,
    pub file: Seq<char>,
}

impl View for SavePath {
    type V = SavePathV;

    open spec fn view(&self) -> SavePathV {
        SavePathV { directories: views(self.directories@), file: self.file@ }
    }
}

/// Where a module with a name is saved.
pub open spec fn save_path(name: Seq<char>) -> SavePathV {
    let parts = parts_from(name, 0);
    SavePathV { directories: parts.drop_last(), file: parts.last() + ".yaml"@ }
}

impl CacheV {
    /// What is known of a module.
    pub open spec fn find(self, d: DescriptorV) -> Option<Seq<char>> {
        if self.modules.dom().contains(descriptor_key(d)) {
            Some(self.modules[descriptor_key(d)])
        } else {
            None
        }
    }

    /// Where to save what is known of a module, if it has to be saved: it has changed, there is a
    /// directory that may be written, and the module has a name.
    pub open spec fn save_needed(self, d: DescriptorV, contents: Seq<char>) -> Option<SavePathV> {
        if self.find(d) == Some(contents) || !self.writable || self.directory is None {
            None
        } else {
            match d {
                DescriptorV::Name(name) => Some(save_path(name)),
                _ => None,
            }
        }
    }

    /// The cache with what is known of a module.
    pub open spec fn with(self, d: DescriptorV, contents: Seq<char>) -> CacheV {
        CacheV { modules: self.modules.insert(descriptor_key(d), contents), ..self }
    }
}

/// The cache gives back what was put in for a module, and still knows what it knew of others.
pub proof fn law_find_after_insert(c: CacheV, d: DescriptorV, e: DescriptorV, contents: Seq<char>)
    ensures
        c.with(d, contents).find(d) == Some(contents),
        e != d ==> c.with(d, contents).find(e) == c.find(e),
        c.with(d, contents).save_needed(d, contents) is None,
{
    law_keys_are_distinct(d, e);
}

/// Splits a name at its dots.
fn split_name(name: &str) -> (r: Vec<String>)
    ensures
        views(r@) == parts_from(name@, 0),
{
    let chars = chars_of(name);
    let n = chars.len();
    let mut out: Vec<String> = Vec::new();
    let mut i: usize = 0;
    assert(views(out@) =~= Seq::<Seq<char>>::empty());
    assert(Seq::<Seq<char>>::empty() + parts_from(name@, 0) =~= parts_from(name@, 0));
    loop
        invariant
            chars@ == name@,
            n == chars.len(),
            i <= n,
            views(out@) + parts_from(name@, i as int) == parts_from(name@, 0),
        decreases n - i,
    {
        let dot = find_dot(&chars, i);
        let ghost before = views(out@);
        if dot >= n {
            assert(name@.subrange(i as int, n as int) =~= name@.skip(i as int));
            out.push(name.substring_char(i, n).to_owned());
            assert(views(out@) =~= before + seq![name@.skip(i as int)]);
            return out;
        }
        out.push(name.substring_char(i, dot).to_owned());
        let ghost part = name@.subrange(i as int, dot as int);
        assert(views(out@) =~= before + seq![part]);
        assert((before + seq![part]) + parts_from(name@, dot + 1) =~= before + (seq![part]
            + parts_from(name@, dot + 1)));
        i = dot + 1;
    }
}

proof fn lemma_parts(s: Seq<char>, i: int)
    requires
        0 <= i <= s.len(),
    ensures
        parts_from(s, i).len() > 0,
    decreases s.len() - i,
{
}

/// Where a module with a name is saved.
pub fn path_for_name(name: &str) -> (r: SavePath)
    ensures
        r@ == save_path(name@),
{
    let mut parts = split_name(name);
    proof {
        lemma_parts(name@, 0);
        assert(views(parts@).len() == parts.len());
    }
    let ghost all = parts@;
    match parts.pop() {
        Some(last) => {
            let mut file = last;
            assert(views(all).last() == file@);
            file.append(".yaml");
            assert(views(parts@) =~= views(all).drop_last());
            SavePath { directories: parts, file }
        },
        None => {
            assert(false);
            SavePath { directories: Vec::new(), file: String::new() }
        },
    }
}

impl BuildCache {
    /// An empty build cache.
    pub fn new(directory: Option<String>, writable: bool) -> (r: BuildCache)
        ensures
            r@ == (CacheV {
                modules: Map::empty(),
                directory: crate::binding_map::opt_view(directory),
                writable,
            }),
    {
        let inner = new_map();
        assert(entries(inner) =~= Map::<Seq<char>, Seq<char>>::empty());
        BuildCache { inner, directory, writable }
    }

    /// What is known of a module.
    pub fn get(&self, descriptor: &ModuleDescriptor) -> (r: Option<String>)
        ensures
            crate::binding_map::opt_view(r) == self@.find(descriptor@),
    {
        map_get(&self.inner, descriptor.to_key().as_str())
    }

    /// Where to save what is known of a module, if it has to be saved.
    pub fn save_needed(&self, descriptor: &ModuleDescriptor, contents: &str) -> (r: Option<SavePath>)
        ensures
            crate::binding_map::opt_view(r) == self@.save_needed(descriptor@, contents@),
    {
        if let Some(before) = self.get(descriptor) {
            if same_text(before.as_str(), contents) {
                // Nothing changed, no need to save
                return None;
            }
        }
        if !self.writable || self.directory.is_none() {
            return None;
        }
        match descriptor {
            ModuleDescriptor::Name(name) => Some(path_for_name(name.as_str())),
            _ => None,
        }
    }

    /// Puts in what is known of a module. `saved` says what came of saving it, where that was
    /// needed: where it failed, the cache stays as it is.
    pub fn insert(
        &mut self,
        descriptor: &ModuleDescriptor,
        contents: String,
        saved: Result<(), String>,
    ) -> (r: Result<(), String>)
        ensures
            match saved {
                Err(e) => if old(self)@.save_needed(descriptor@, contents@) is Some {
                    final(self)@ == old(self)@ && (r matches Err(m) && m@ == e@)
                } else {
                    final(self)@ == old(self)@.with(descriptor@, contents@) && r is Ok
                },
                Ok(_) => final(self)@ == old(self)@.with(descriptor@, contents@) && r is Ok,
            },
    {
        if let Err(e) = saved {
            if self.save_needed(descriptor, contents.as_str()).is_some() {
                return Err(e);
            }
        }
        let ghost before = self@;
        map_insert(&mut self.inner, descriptor.to_key(), contents);
        assert(self@ =~= before.with(descriptor@, contents@));
        Ok(())
    }

    /// The number of entries in the cache.
    pub fn len(&self) -> (r: usize)
        ensures
            r == self@.modules.dom().len(),
    {
        map_len(&self.inner)
    }
}

} // verus!
