//! Parsed manifests, kept by the directory that holds them, so that each
//! manifest is parsed once.

use std::rc::Rc;
use vstd::prelude::*;
use vstd::string::*;
use crate::keys::{dotted, rising, stringify, KeySet, Segment, SegmentView};
use crate::package::directory_of;
use crate::paths::{path_text, FilePath};

verus! {

/// What parsing a manifest gave: the manifest, and the keys of the
/// document that the schema of manifests does not know.
#[derive(Debug)]
pub struct ParseOutput<M> {
    pub manifest: Rc<M>,
    pub unused: KeySet,
}

/// Why a manifest could not be loaded.
#[derive(Debug, PartialEq, Eq)]
pub enum LoadError {
    /// The file could not be read.
    Read { cause: String },
    /// What the file holds is no manifest.
    Parse { cause: String },
}

/// What a `LoadError` stands for.
pub enum LoadErrorView {
    Read { cause: Seq<char> },
    Parse { cause: Seq<char> },
}

impl View for LoadError {
    type V = LoadErrorView;

    open spec fn view(&self) -> LoadErrorView {
        match self {
            LoadError::Read { cause } => LoadErrorView::Read { cause: cause@ },
            LoadError::Parse { cause } => LoadErrorView::Parse { cause: cause@ },
        }
    }
}

/// A failure to get the manifest at `manifest_path`, with its causes
/// from the outermost to the innermost.
#[derive(Debug, PartialEq, Eq)]
pub struct ManifestError {
    pub manifest_path: FilePath,
    pub causes: Vec<String>,
}

/// What a `ManifestError` stands for.
pub struct ManifestErrorView {
    pub manifest_path: Seq<Seq<char>>,
    pub causes: Seq<Seq<char>>,
}

impl View for ManifestError {
    type V = ManifestErrorView;

    open spec fn view(&self) -> ManifestErrorView {
        ManifestErrorView { manifest_path: self.manifest_path@, causes: self.causes.deep_view() }
    }
}

/// The error for a manifest at `file` that could not be loaded because
/// of `cause`.
pub open spec fn manifest_error(file: Seq<Seq<char>>, cause: LoadErrorView) -> ManifestErrorView {
    match cause {
        LoadErrorView::Read { cause } => ManifestErrorView {
            manifest_path: file,
            causes: seq!["failed to read `"@ + path_text(file) + "`"@, cause],
        },
        LoadErrorView::Parse { cause } => ManifestErrorView {
            manifest_path: file,
            causes: seq!["failed to parse manifest at `"@ + path_text(file) + "`"@, cause],
        },
    }
}

impl ManifestError {
    /// The error for the manifest at `file` that could not be loaded
    /// because of `cause`.
    pub fn new(cause: LoadError, file: &FilePath) -> (r: Self)
        ensures
            r@ == manifest_error(file@, cause@),
    {
        let mut outer = match &cause {
            LoadError::Read { .. } => "failed to read `".to_owned(),
            LoadError::Parse { .. } => "failed to parse manifest at `".to_owned(),
        };
        outer.append(file.to_text().as_str());
        outer.append("`");
        let inner = match cause {
            LoadError::Read { cause } => cause,
            LoadError::Parse { cause } => cause,
        };
        let mut causes: Vec<String> = Vec::new();
        causes.push(outer);
        causes.push(inner);
        let r = ManifestError { manifest_path: file.clone(), causes };
        assert(r@.causes =~= manifest_error(file@, cause@).causes);
        r
    }
}

/// Another handle on what `handle` shares. This is `Rc::clone`, which
/// copies no value: the new handle points to the same allocation, so
/// that both stand for one value.
#[verifier::external_body]
fn share<T>(handle: &Rc<T>) -> (r: Rc<T>)
    ensures
        r == *handle,
{
    Rc::clone(handle)
}

/// The name under which `manifest_file` is shown: what follows the
/// current directory `cwd`, where the file lies under it, and else the
/// whole path.
pub fn pretty_filename(manifest_file: &FilePath, cwd: &FilePath) -> (r: FilePath)
    ensures
        r@ == if cwd@.is_prefix_of(manifest_file@) {
            manifest_file@.skip(cwd@.len() as int)
        } else {
            manifest_file@
        },
{
    match manifest_file.strip_prefix(cwd) {
        Some(rest) => rest,
        None => manifest_file.clone(),
    }
}

/// The dotted forms of `paths`, in their order.
pub open spec fn dotted_keys(paths: Seq<Seq<SegmentView>>) -> Seq<Seq<char>> {
    paths.map_values(|p: Seq<SegmentView>| dotted(p))
}

/// Puts together what parsing gave: the manifest, and the set of the
/// dotted forms of the paths in `ignored`, which are the keys of the
/// document that the schema passed over.
pub fn deserialize<M>(manifest: M, ignored: &Vec<Vec<Segment>>) -> (r: ParseOutput<M>)
    ensures
        r.manifest == manifest,
        r.unused@.to_set() == dotted_keys(ignored.deep_view()).to_set(),
        rising(r.unused@),
{
    let mut unused = KeySet::new();
    let mut i: usize = 0;
    assert(unused@.to_set() =~= dotted_keys(ignored.deep_view().take(0)).to_set());
    while i < ignored.len()
        invariant
            i <= ignored.len(),
            rising(unused@),
            unused@.to_set() == dotted_keys(ignored.deep_view().take(i as int)).to_set(),
        decreases ignored.len() - i,
    {
        let mut key = String::new();
        stringify(&mut key, &ignored[i]);
        proof {
            let done = dotted_keys(ignored.deep_view().take(i as int));
            let next = dotted_keys(ignored.deep_view().take(i as int + 1));
            assert(ignored.deep_view()[i as int] == ignored[i as int].deep_view());
            assert(next =~= done.push(key@));
            assert(next.to_set() =~= done.to_set().insert(key@)) by {
                assert forall|x: Seq<char>| next.contains(x) <==> done.contains(x) || x
                    == key@ by {
                    if next.contains(x) {
                        let k = choose|k: int| 0 <= k < next.len() && next[k] == x;
                        if k < done.len() {
                            assert(done[k] == x);
                        }
                    }
                    if done.contains(x) {
                        let k = choose|k: int| 0 <= k < done.len() && done[k] == x;
                        assert(next[k] == x);
                    }
                    if x == key@ {
                        assert(next[done.len() as int] == x);
                    }
                }
            }
        }
        unused.insert(key);
        i += 1;
    }
    assert(ignored.deep_view().take(i as int) =~= ignored.deep_view());
    ParseOutput { manifest: Rc::new(manifest), unused }
}

/// A table of shared values by directory, as contracts see it.
pub type Cached<M> = Seq<(Seq<Seq<char>>, Rc<ParseOutput<M>>)>;

/// The index of the first entry of `entries` for the directory `dir`,
/// from `from` on, or the length of `entries` if there is none.
pub open spec fn slot<M>(entries: Cached<M>, dir: Seq<Seq<char>>, from: int) -> int
    decreases entries.len() - from,
{
    if from < 0 || from >= entries.len() {
        entries.len() as int
    } else if entries[from].0 == dir {
        from
    } else {
        slot(entries, dir, from + 1)
    }
}

/// What `entries` holds for the directory `dir`.
pub open spec fn cached<M>(entries: Cached<M>, dir: Seq<Seq<char>>) -> Option<Rc<ParseOutput<M>>> {
    if slot(entries, dir, 0) < entries.len() {
        Some(entries[slot(entries, dir, 0)].1)
    } else {
        None
    }
}

/// `slot` is the least index at or after `from` that holds `dir`.
pub proof fn lemma_slot<M>(entries: Cached<M>, dir: Seq<Seq<char>>, from: int)
    requires
        0 <= from <= entries.len(),
    ensures
        from <= slot(entries, dir, from) <= entries.len(),
        forall|k: int| from <= k < slot(entries, dir, from) ==> (#[trigger] entries[k]).0 != dir,
        slot(entries, dir, from) < entries.len() ==> entries[slot(entries, dir, from)].0 == dir,
    decreases entries.len() - from,
{
    if from < entries.len() && entries[from].0 != dir {
        lemma_slot(entries, dir, from + 1);
    }
}

/// Whether no two entries stand for one directory.
pub open spec fn distinct_dirs<M>(entries: Cached<M>) -> bool {
    forall|i: int, j: int|
        0 <= i < j < entries.len() ==> (#[trigger] entries[i]).0 != (#[trigger] entries[j]).0
}

/// The parsed manifests of one run, by the directory that holds the
/// manifest. A directory has one entry at most, and an entry is never
/// replaced.
pub struct ManifestCache<M> {
    entries: Vec<(FilePath, Rc<ParseOutput<M>>)>,
}

impl<M> View for ManifestCache<M> {
    type V = Cached<M>;

    closed spec fn view(&self) -> Cached<M> {
        Seq::new(self.entries@.len(), |i: int| (self.entries@[i].0@, self.entries@[i].1))
    }
}

impl<M> ManifestCache<M> {
    #[verifier::type_invariant]
    closed spec fn distinct(&self) -> bool {
        distinct_dirs(self@)
    }

    /// The cache without entries.
    pub fn new() -> (r: Self)
        ensures
            r@ == Cached::<M>::empty(),
    {
        let r = ManifestCache { entries: Vec::new() };
        assert(r@ =~= Cached::<M>::empty());
        r
    }

    /// The number of entries. No two of them stand for one directory.
    pub fn len(&self) -> (r: usize)
        ensures
            r == self@.len(),
            distinct_dirs(self@),
    {
        proof {
            use_type_invariant(self);
        }
        self.entries.len()
    }

    /// What the cache holds for the directory `dir`.
    pub fn get(&self, dir: &FilePath) -> (r: Option<Rc<ParseOutput<M>>>)
        ensures
            r == cached(self@, dir@),
    {
        let mut i: usize = 0;
        while i < self.entries.len()
            invariant
                i <= self.entries.len(),
                slot(self@, dir@, 0) == slot(self@, dir@, i as int),
            decreases self.entries.len() - i,
        {
            if self.entries[i].0.same(dir) {
                return Some(share(&self.entries[i].1));
            }
            i += 1;
        }
        None
    }

    /// Puts `output` into the cache for the directory `dir`, which has no
    /// entry yet.
    fn put(&mut self, dir: FilePath, output: Rc<ParseOutput<M>>)
        requires
            cached(old(self)@, dir@) is None,
        ensures
            final(self)@ == old(self)@.push((dir@, output)),
    {
        proof {
            use_type_invariant(&*self);
            lemma_slot(self@, dir@, 0);
        }
        let ghost before = self@;
        let mut taken = ManifestCache::new();
        std::mem::swap(self, &mut taken);
        let mut entries = taken.entries;
        entries.push((dir, output));
        proof {
            let after = Seq::new(entries@.len(), |i: int| (entries@[i].0@, entries@[i].1));
            assert(after =~= before.push((dir@, output)));
            assert(distinct_dirs(after));
        }
        *self = ManifestCache { entries };
    }
}

/// The parsed manifest at `manifest_file`, from the cache where it holds
/// the manifest of that directory, and else from `load`. What `load`
/// gives is put into the cache for the directory that holds
/// `manifest_file`, so that `load` is called once for a directory at
/// most as long as the cache lives; all that ask get handles on the one
/// value. Where `load` fails, the error says which manifest failed and
/// why, and the cache stays as it was. The path of a manifest names a
/// file in a directory, so it is not empty.
pub fn parse_manifest<M, F: FnOnce() -> Result<ParseOutput<M>, LoadError>>(
    manifest_file: &FilePath,
    cache: &mut ManifestCache<M>,
    load: F,
) -> (r: Result<Rc<ParseOutput<M>>, ManifestError>)
    requires
        manifest_file@.len() > 0,
        cached(old(cache)@, directory_of(manifest_file@)) is None ==> load.requires(()),
    ensures
        match cached(old(cache)@, directory_of(manifest_file@)) {
            Some(hit) => r matches Ok(output) && output == hit && final(cache)@ == old(cache)@,
            None => match r {
                Ok(output) => load.ensures((), Ok(*output)) && final(cache)@ == old(cache)@.push(
                    (directory_of(manifest_file@), output),
                ),
                Err(e) => final(cache)@ == old(cache)@ && exists|cause: LoadError|
                    load.ensures((), Err(cause)) && e@ == manifest_error(
                        manifest_file@,
                        #[trigger] cause@,
                    ),
            },
        },
{
    let key = manifest_file.parent();
    match cache.get(&key) {
        Some(hit) => Ok(hit),
        None => match load() {
            Ok(output) => {
                let shared = Rc::new(output);
                let handle = share(&shared);
                cache.put(key, shared);
                Ok(handle)
            },
            Err(cause) => {
                let ghost witness = cause;
                let e = ManifestError::new(cause, manifest_file);
                assert(load.ensures((), Err(witness)) && e@ == manifest_error(
                    manifest_file@,
                    witness@,
                ));
                Err(e)
            },
        },
    }
}

/// Asking twice for a manifest gives the value that the first answer
/// put into the cache: after an entry for a directory has come in behind
/// the others, the cache holds that entry for that directory.
pub proof fn lemma_cached_after_push<M>(
    entries: Cached<M>,
    dir: Seq<Seq<char>>,
    output: Rc<ParseOutput<M>>,
)
    requires
        cached(entries, dir) is None,
    ensures
        cached(entries.push((dir, output)), dir) == Some(output),
        forall|other: Seq<Seq<char>>|
            other != dir ==> #[trigger] cached(entries.push((dir, output)), other) == cached(
                entries,
                other,
            ),
{
    let after = entries.push((dir, output));
    lemma_slot(entries, dir, 0);
    lemma_slot(after, dir, 0);
    assert(slot(after, dir, 0) == entries.len()) by {
        let s = slot(after, dir, 0);
        if s < entries.len() {
            assert(after[s] == entries[s]);
        }
        assert(after[entries.len() as int].0 == dir);
    }
    assert forall|other: Seq<Seq<char>>| other != dir implies #[trigger] cached(after, other)
        == cached(entries, other) by {
        lemma_slot(entries, other, 0);
        lemma_slot(after, other, 0);
        let s = slot(entries, other, 0);
        let t = slot(after, other, 0);
        if s < entries.len() {
            assert(after[s] == entries[s]);
            if t < s {
                assert(after[t] == entries[t]);
            }
            assert(t == s);
        } else {
            if t < entries.len() {
                assert(after[t] == entries[t]);
            }
            assert(t == after.len());
        }
    }
}

} // verus!
