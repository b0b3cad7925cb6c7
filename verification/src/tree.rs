//! The files below a directory, and the walk that lists those that
//! belong to a package.

use vstd::prelude::*;
use vstd::string::*;
use crate::errors::{SourceError, SourceErrorView};
use crate::filter::{accepts, Filter, FilterView};
use crate::paths::{same_text, FilePath};
use crate::seqs::lemma_prefix_chain;

verus! {

/// What was found at a path.
#[derive(Debug)]
pub enum FileTree {
    /// Anything that is not a directory.
    File,
    /// A directory, with what it holds.
    Directory { entries: Vec<DirEntry> },
    /// A directory that could not be read; whether it holds a manifest is
    /// known all the same.
    Unreadable { has_manifest: bool },
}

/// One entry of a directory.
#[derive(Debug)]
pub struct DirEntry {
    pub name: String,
    pub node: FileTree,
}

/// The paths of files, as contracts see them.
pub type Paths = Seq<Seq<Seq<char>>>;

/// The name of the file that describes a package.
pub open spec fn manifest_name() -> Seq<char> {
    "Cargo.toml"@
}

/// The name of the file that records the versions chosen for a package.
pub open spec fn lockfile_name() -> Seq<char> {
    "Cargo.lock"@
}

/// The name of the directory that holds what was built.
pub open spec fn build_dir_name() -> Seq<char> {
    "target"@
}

/// The name of the directory in which the version control keeps its data.
pub open spec fn vcs_dir_name() -> Seq<char> {
    ".git"@
}

/// Whether a directory with these entries holds a manifest, which makes
/// it the root of a package.
pub open spec fn holds_manifest(entries: Seq<DirEntry>) -> bool {
    exists|i: int| 0 <= i < entries.len() && (#[trigger] entries[i]).name@ == manifest_name()
}

/// Whether the walk passes over an entry called `name`: the data of the
/// version control always, the build directory and the lockfile at the
/// root of the package.
pub open spec fn passed_over(at_root: bool, name: Seq<char>) -> bool {
    name == vcs_dir_name() || (at_root && (name == build_dir_name() || name == lockfile_name()))
}

/// Whether the walk stays out of a directory: one that is not the root of
/// the walk and holds a manifest belongs to a package of its own.
pub open spec fn closed_to_walk(tree: FileTree, at_root: bool) -> bool {
    !at_root && match tree {
        FileTree::File => false,
        FileTree::Directory { entries } => holds_manifest(entries@),
        FileTree::Unreadable { has_manifest } => has_manifest,
    }
}

/// One result after another: the first error wins, else the files of
/// both in order.
pub open spec fn in_turn(
    first: Result<Paths, SourceErrorView>,
    second: Result<Paths, SourceErrorView>,
) -> Result<Paths, SourceErrorView> {
    match first {
        Err(e) => Err(e),
        Ok(a) => match second {
            Err(e) => Err(e),
            Ok(b) => Ok(a + b),
        },
    }
}

/// The files that the walk of `tree`, found at `path`, lists: depth
/// first, each directory in the order of its entries, or the first
/// directory on the way that could not be read.
pub open spec fn walk_files(filter: FilterView, path: Seq<Seq<char>>, tree: FileTree, at_root: bool)
    -> Result<Paths, SourceErrorView>
    decreases tree, 0nat, 0nat,
{
    match tree {
        FileTree::File => Ok(
            if accepts(filter, path) {
                seq![path]
            } else {
                Seq::empty()
            },
        ),
        FileTree::Unreadable { has_manifest } => if !at_root && has_manifest {
            Ok(Seq::empty())
        } else {
            Err(SourceErrorView::UnreadableDirectory { path })
        },
        FileTree::Directory { entries } => if !at_root && holds_manifest(entries@) {
            Ok(Seq::empty())
        } else {
            walk_entries(filter, path, entries, at_root, 0)
        },
    }
}

/// The files that the walk lists for the entries of the directory at
/// `path`, from the entry at `from` on.
pub open spec fn walk_entries(
    filter: FilterView,
    path: Seq<Seq<char>>,
    entries: Vec<DirEntry>,
    at_root: bool,
    from: nat,
) -> Result<Paths, SourceErrorView>
    decreases entries, 1nat, entries.len() - from,
{
    if from >= entries.len() {
        Ok(Seq::empty())
    } else {
        proof {
            broadcast use vstd::std_specs::vec::axiom_vec_index_decreases;

        }
        let entry = entries[from as int];
        let here = if passed_over(at_root, entry.name@) {
            Ok(Seq::empty())
        } else {
            walk_files(filter, path.push(entry.name@), entry.node, false)
        };
        in_turn(here, walk_entries(filter, path, entries, at_root, from + 1))
    }
}

/// Whether the walk that starts at `tree` comes to a file along `way`,
/// the names from `tree` down to the file. On such a way the walk passes
/// over no name, and every directory below the start holds no manifest.
pub open spec fn reaches(tree: FileTree, at_root: bool, way: Seq<Seq<char>>) -> bool
    decreases tree, 0nat, 0nat,
{
    match tree {
        FileTree::File => way.len() == 0,
        FileTree::Unreadable { has_manifest } => false,
        FileTree::Directory { entries } => {
            &&& way.len() > 0
            &&& !closed_to_walk(tree, at_root)
            &&& !passed_over(at_root, way[0])
            &&& reaches_in(entries, way, 0)
        },
    }
}

/// Whether one of `entries`, from `from` on, bears the first name of
/// `way` and the walk comes from it to a file along the rest of `way`.
pub open spec fn reaches_in(entries: Vec<DirEntry>, way: Seq<Seq<char>>, from: nat) -> bool
    decreases entries, 1nat, entries.len() - from,
{
    if from >= entries.len() || way.len() == 0 {
        false
    } else {
        proof {
            broadcast use vstd::std_specs::vec::axiom_vec_index_decreases;

        }
        let entry = entries[from as int];
        (entry.name@ == way[0] && reaches(entry.node, false, way.drop_first())) || reaches_in(
            entries,
            way,
            from + 1,
        )
    }
}

/// Whether `file` is one that the walk of `tree`, found at `path`, may
/// list: the filter accepts it, it is `path` or lies under it, and the
/// walk comes to it.
pub open spec fn may_list(
    filter: FilterView,
    path: Seq<Seq<char>>,
    tree: FileTree,
    at_root: bool,
    file: Seq<Seq<char>>,
) -> bool {
    &&& accepts(filter, file)
    &&& path.is_prefix_of(file)
    &&& reaches(tree, at_root, file.skip(path.len() as int))
}

/// Every file that the walk lists is accepted by the filter and reached
/// by the walk: it lies on a way from the start on which no name is
/// passed over and no directory below the start holds a manifest. So the
/// walk lists no file of a package that is nested in the directory.
pub proof fn lemma_walk_reaches(
    filter: FilterView,
    path: Seq<Seq<char>>,
    tree: FileTree,
    at_root: bool,
)
    ensures
        walk_files(filter, path, tree, at_root) matches Ok(files) ==> forall|i: int|
            0 <= i < files.len() ==> may_list(filter, path, tree, at_root, #[trigger] files[i]),
    decreases tree, 0nat, 0nat,
{
    match tree {
        FileTree::File => {
            assert(path.skip(path.len() as int) =~= Seq::<Seq<char>>::empty());
            assert(path =~= path.subrange(0, path.len() as int));
        },
        FileTree::Unreadable { has_manifest } => {},
        FileTree::Directory { entries } => {
            if !closed_to_walk(tree, at_root) {
                lemma_walk_entries_reach(filter, path, entries, at_root, 0);
            }
        },
    }
}

/// What `lemma_walk_reaches` says, for the entries of a directory from
/// `from` on, none of which is the start of the walk.
pub proof fn lemma_walk_entries_reach(
    filter: FilterView,
    path: Seq<Seq<char>>,
    entries: Vec<DirEntry>,
    at_root: bool,
    from: nat,
)
    ensures
        walk_entries(filter, path, entries, at_root, from) matches Ok(files) ==> forall|i: int|
            0 <= i < files.len() ==> {
                let file = #[trigger] files[i];
                &&& accepts(filter, file)
                &&& path.is_prefix_of(file)
                &&& file.len() > path.len()
                &&& !passed_over(at_root, file[path.len() as int])
                &&& reaches_in(entries, file.skip(path.len() as int), from)
            },
    decreases entries, 1nat, entries.len() - from,
{
    broadcast use vstd::std_specs::vec::axiom_vec_index_decreases;

    if from < entries.len() {
        let entry = entries[from as int];
        let child = path.push(entry.name@);
        let here = if passed_over(at_root, entry.name@) {
            Ok(Seq::empty())
        } else {
            walk_files(filter, child, entry.node, false)
        };
        let rest = walk_entries(filter, path, entries, at_root, from + 1);
        lemma_walk_entries_reach(filter, path, entries, at_root, from + 1);
        if !passed_over(at_root, entry.name@) {
            lemma_walk_reaches(filter, child, entry.node, false);
        }
        let whole = walk_entries(filter, path, entries, at_root, from);
        if whole is Ok {
            let files = whole->Ok_0;
            let a = here->Ok_0;
            let b = rest->Ok_0;
            assert(files == a + b);
            assert forall|i: int| 0 <= i < files.len() implies {
                let file = #[trigger] files[i];
                &&& accepts(filter, file)
                &&& path.is_prefix_of(file)
                &&& file.len() > path.len()
                &&& !passed_over(at_root, file[path.len() as int])
                &&& reaches_in(entries, file.skip(path.len() as int), from)
            } by {
                let file = files[i];
                if i < a.len() {
                    assert(file == a[i]);
                    assert(may_list(filter, child, entry.node, false, file));
                    assert(child.is_prefix_of(file));
                    assert(child =~= file.subrange(0, child.len() as int));
                    assert(file[path.len() as int] == child[path.len() as int]);
                    assert(path =~= file.subrange(0, path.len() as int)) by {
                        assert forall|k: int| 0 <= k < path.len() implies path[k] == file[k] by {
                            assert(child[k] == file.subrange(0, child.len() as int)[k]);
                        }
                    }
                    let way = file.skip(path.len() as int);
                    assert(way[0] == entry.name@);
                    assert(way.drop_first() =~= file.skip(child.len() as int));
                } else {
                    assert(file == b[i - a.len()]);
                }
            }
        }
    }
}

/// The walk from the root of a package lists nothing that is, or lies
/// in, the lockfile, the build directory or the data of the version
/// control at the root, whatever the patterns of the filter say.
pub proof fn lemma_walk_skips_at_root(
    filter: FilterView,
    root: Seq<Seq<char>>,
    tree: FileTree,
    name: Seq<char>,
)
    requires
        name == lockfile_name() || name == build_dir_name() || name == vcs_dir_name(),
    ensures
        walk_files(filter, root, tree, true) matches Ok(files) ==> forall|i: int|
            0 <= i < files.len() ==> !root.push(name).is_prefix_of(#[trigger] files[i]),
{
    lemma_walk_reaches(filter, root, tree, true);
    let whole = walk_files(filter, root, tree, true);
    if whole is Ok {
        let files = whole->Ok_0;
        assert forall|i: int| 0 <= i < files.len() implies !root.push(name).is_prefix_of(
            #[trigger] files[i],
        ) by {
            let file = files[i];
            assert(may_list(filter, root, tree, true, file));
            if root.push(name).is_prefix_of(file) {
                let way = file.skip(root.len() as int);
                let n = root.len() as int;
                assert(root.push(name) =~= file.subrange(0, n + 1));
                assert(file.subrange(0, n + 1)[n] == file[n]);
                assert(way[0] == name);
                assert(passed_over(true, name));
            }
        }
    }
}

/// The walk lists nothing from a directory below its start that holds a
/// manifest: such a directory is the root of a package of its own.
pub proof fn lemma_walk_stays_out_of_packages(
    filter: FilterView,
    path: Seq<Seq<char>>,
    tree: FileTree,
)
    requires
        closed_to_walk(tree, false),
    ensures
        walk_files(filter, path, tree, false) == Ok::<Paths, SourceErrorView>(Seq::empty()),
        forall|way: Seq<Seq<char>>| !reaches(tree, false, way),
{
}

/// The walk leaves out no file that it comes to and that the filter
/// accepts: with `lemma_walk_reaches`, the files listed are exactly
/// those. So a file is never dropped because a package is nested
/// elsewhere in the directory.
pub proof fn lemma_walk_lists_reached(
    filter: FilterView,
    path: Seq<Seq<char>>,
    tree: FileTree,
    at_root: bool,
    way: Seq<Seq<char>>,
)
    requires
        walk_files(filter, path, tree, at_root) is Ok,
        reaches(tree, at_root, way),
        accepts(filter, path + way),
    ensures
        walk_files(filter, path, tree, at_root)->Ok_0.contains(path + way),
    decreases tree, 0nat, 0nat,
{
    match tree {
        FileTree::File => {
            assert(path + way =~= path);
            assert(walk_files(filter, path, tree, at_root)->Ok_0[0] == path);
        },
        FileTree::Unreadable { has_manifest } => {},
        FileTree::Directory { entries } => {
            lemma_walk_entries_list_reached(filter, path, entries, at_root, 0, way);
        },
    }
}

/// What `lemma_walk_lists_reached` says, for the entries of a directory
/// from `from` on.
pub proof fn lemma_walk_entries_list_reached(
    filter: FilterView,
    path: Seq<Seq<char>>,
    entries: Vec<DirEntry>,
    at_root: bool,
    from: nat,
    way: Seq<Seq<char>>,
)
    requires
        walk_entries(filter, path, entries, at_root, from) is Ok,
        way.len() > 0,
        !passed_over(at_root, way[0]),
        reaches_in(entries, way, from),
        accepts(filter, path + way),
    ensures
        walk_entries(filter, path, entries, at_root, from)->Ok_0.contains(path + way),
    decreases entries, 1nat, entries.len() - from,
{
    broadcast use vstd::std_specs::vec::axiom_vec_index_decreases;

    if from < entries.len() {
        let entry = entries[from as int];
        let child = path.push(entry.name@);
        let here = if passed_over(at_root, entry.name@) {
            Ok(Seq::empty())
        } else {
            walk_files(filter, child, entry.node, false)
        };
        let rest = walk_entries(filter, path, entries, at_root, from + 1);
        let files = walk_entries(filter, path, entries, at_root, from)->Ok_0;
        let a = here->Ok_0;
        let b = rest->Ok_0;
        assert(files == a + b);
        if entry.name@ == way[0] && reaches(entry.node, false, way.drop_first()) {
            assert(child + way.drop_first() =~= path + way);
            lemma_walk_lists_reached(filter, child, entry.node, false, way.drop_first());
            let k = choose|k: int| 0 <= k < a.len() && a[k] == path + way;
            assert(files[k] == path + way);
        } else {
            lemma_walk_entries_list_reached(filter, path, entries, at_root, from + 1, way);
            let k = choose|k: int| 0 <= k < b.len() && b[k] == path + way;
            assert(files[a.len() + k] == path + way);
        }
    }
}

/// Whether every place that is found from `tree` along `way` is the
/// root of a package: a directory that holds a manifest. This says of
/// what was found on disk that a package lies at `way`.
pub open spec fn package_at(tree: FileTree, way: Seq<Seq<char>>) -> bool
    decreases tree, 0nat, 0nat,
{
    if way.len() == 0 {
        closed_to_walk(tree, false)
    } else {
        match tree {
            FileTree::Directory { entries } => package_at_in(entries, way, 0),
            _ => true,
        }
    }
}

/// What `package_at` asks, for the entries from `from` on that bear the
/// first name of `way`.
pub open spec fn package_at_in(entries: Vec<DirEntry>, way: Seq<Seq<char>>, from: nat) -> bool
    decreases entries, 1nat, entries.len() - from,
{
    if from >= entries.len() || way.len() == 0 {
        true
    } else {
        proof {
            broadcast use vstd::std_specs::vec::axiom_vec_index_decreases;

        }
        let entry = entries[from as int];
        (entry.name@ == way[0] ==> package_at(entry.node, way.drop_first())) && package_at_in(
            entries,
            way,
            from + 1,
        )
    }
}

/// The walk comes to no file on a way that leads through the root of a
/// package below the start of the walk.
pub proof fn lemma_reaches_outside_package(
    tree: FileTree,
    at_root: bool,
    way: Seq<Seq<char>>,
    nested: Seq<Seq<char>>,
)
    requires
        nested.len() > 0,
        nested.is_prefix_of(way),
        package_at(tree, nested),
    ensures
        !reaches(tree, at_root, way),
    decreases tree, 0nat, 0nat,
{
    match tree {
        FileTree::Directory { entries } => {
            lemma_reaches_in_outside_package(entries, way, nested, 0);
        },
        _ => {},
    }
}

/// What `lemma_reaches_outside_package` says, for the entries of a
/// directory from `from` on.
pub proof fn lemma_reaches_in_outside_package(
    entries: Vec<DirEntry>,
    way: Seq<Seq<char>>,
    nested: Seq<Seq<char>>,
    from: nat,
)
    requires
        nested.len() > 0,
        nested.is_prefix_of(way),
        package_at_in(entries, nested, from),
    ensures
        !reaches_in(entries, way, from),
    decreases entries, 1nat, entries.len() - from,
{
    broadcast use vstd::std_specs::vec::axiom_vec_index_decreases;

    if from < entries.len() {
        let entry = entries[from as int];
        lemma_reaches_in_outside_package(entries, way, nested, from + 1);
        assert(nested[0] == way.subrange(0, nested.len() as int)[0]);
        if entry.name@ == way[0] {
            let rest = nested.drop_first();
            assert(package_at(entry.node, rest));
            if rest.len() > 0 {
                assert(rest =~= way.drop_first().subrange(0, rest.len() as int)) by {
                    assert forall|k: int| 0 <= k < rest.len() implies rest[k]
                        == way.drop_first()[k] by {
                        assert(nested[k + 1] == way.subrange(0, nested.len() as int)[k + 1]);
                    }
                }
                lemma_reaches_outside_package(entry.node, false, way.drop_first(), rest);
            } else {
                assert(closed_to_walk(entry.node, false));
            }
            assert(!reaches(entry.node, false, way.drop_first()));
        }
    }
}

/// The walk lists nothing that lies at or under the root of a package
/// below the start of the walk: no file of a nested package is among the
/// files of the outer one.
pub proof fn lemma_walk_lists_nothing_of_package(
    filter: FilterView,
    path: Seq<Seq<char>>,
    tree: FileTree,
    at_root: bool,
    nested: Seq<Seq<char>>,
)
    requires
        nested.len() > 0,
        package_at(tree, nested),
    ensures
        walk_files(filter, path, tree, at_root) matches Ok(files) ==> forall|i: int|
            0 <= i < files.len() ==> !(path + nested).is_prefix_of(#[trigger] files[i]),
{
    lemma_walk_reaches(filter, path, tree, at_root);
    let whole = walk_files(filter, path, tree, at_root);
    if whole is Ok {
        let files = whole->Ok_0;
        assert forall|i: int| 0 <= i < files.len() implies !(path + nested).is_prefix_of(
            #[trigger] files[i],
        ) by {
            let file = files[i];
            assert(may_list(filter, path, tree, at_root, file));
            if (path + nested).is_prefix_of(file) {
                let way = file.skip(path.len() as int);
                let whole_len = (path + nested).len() as int;
                assert(nested =~= way.subrange(0, nested.len() as int)) by {
                    assert forall|k: int| 0 <= k < nested.len() implies nested[k] == way[k] by {
                        assert((path + nested)[path.len() + k] == file.subrange(0, whole_len)[
                            path.len() + k
                        ]);
                    }
                }
                lemma_reaches_outside_package(tree, at_root, way, nested);
            }
        }
    }
}

/// Whether a directory with these entries holds a manifest.
pub fn has_manifest_entry(entries: &Vec<DirEntry>) -> (r: bool)
    ensures
        r == holds_manifest(entries@),
{
    let mut i: usize = 0;
    while i < entries.len()
        invariant
            i <= entries.len(),
            forall|k: int| 0 <= k < i ==> (#[trigger] entries@[k]).name@ != manifest_name(),
        decreases entries.len() - i,
    {
        if same_text(entries[i].name.as_str(), "Cargo.toml") {
            return true;
        }
        i += 1;
    }
    false
}

/// Whether the walk passes over an entry called `name`.
pub fn is_passed_over(at_root: bool, name: &str) -> (r: bool)
    ensures
        r == passed_over(at_root, name@),
{
    same_text(name, ".git") || (at_root && (same_text(name, "target") || same_text(
        name,
        "Cargo.lock",
    )))
}

/// Walks `tree`, found at `path`, and adds to `found` the files of it
/// that `filter` accepts. The walk goes depth first and takes the entries
/// of each directory in their order. It passes over the data of the
/// version control everywhere and, where `at_root` says that `path` is
/// the root of the package, over the build directory and the lockfile;
/// it stays out of every directory below `path` that holds a manifest.
/// A directory on the way that could not be read ends the walk.
pub fn walk(
    filter: &Filter,
    path: &FilePath,
    tree: &FileTree,
    at_root: bool,
    found: &mut Vec<FilePath>,
) -> (r: Result<(), SourceError>)
    ensures
        match walk_files(filter@, path@, *tree, at_root) {
            Ok(files) => r is Ok && final(found).deep_view() == old(found).deep_view() + files,
            Err(e) => r matches Err(x) && x@ == e,
        },
        old(found).deep_view().is_prefix_of(final(found).deep_view()),
    decreases tree, 0nat, 0nat,
{
    proof {
        lemma_prefix_chain(found.deep_view(), Paths::empty(), Paths::empty());
    }
    match tree {
        FileTree::File => {
            if filter.accepts(path) {
                let ghost before = found.deep_view();
                found.push(path.clone());
                assert(found.deep_view() =~= before + seq![path@]);
            } else {
                assert(found.deep_view() =~= found.deep_view() + Paths::empty());
            }
            Ok(())
        },
        FileTree::Unreadable { has_manifest } => {
            if !at_root && *has_manifest {
                assert(found.deep_view() =~= found.deep_view() + Paths::empty());
                Ok(())
            } else {
                Err(SourceError::UnreadableDirectory { path: path.clone() })
            }
        },
        FileTree::Directory { entries } => {
            if !at_root && has_manifest_entry(entries) {
                assert(found.deep_view() =~= found.deep_view() + Paths::empty());
                return Ok(());
            }
            let ghost start = found.deep_view();
            let ghost whole = walk_entries(filter@, path@, *entries, at_root, 0);
            let ghost mut done: Paths = Seq::empty();
            assert(found.deep_view() =~= start + done);
            let mut i: usize = 0;
            while i < entries.len()
                invariant
                    i <= entries.len(),
                    *tree == (FileTree::Directory { entries: *entries }),
                    walk_files(filter@, path@, *tree, at_root) == whole,
                    start == old(found).deep_view(),
                    found.deep_view() == start + done,
                    whole == in_turn(
                        Ok(done),
                        walk_entries(filter@, path@, *entries, at_root, i as nat),
                    ),
                decreases entries.len() - i,
            {
                proof {
                    broadcast use vstd::std_specs::vec::axiom_vec_index_decreases;

                }
                let entry = &entries[i];
                let ghost next = walk_entries(filter@, path@, *entries, at_root, (i + 1) as nat);
                if is_passed_over(at_root, entry.name.as_str()) {
                    assert(in_turn(Ok(done), in_turn(Ok(Paths::empty()), next)) == in_turn(
                        Ok(done),
                        next,
                    )) by {
                        if next is Ok {
                            assert(Paths::empty() + next->Ok_0 =~= next->Ok_0);
                        }
                    }
                } else {
                    let child = path.join(entry.name.as_str());
                    let ghost here = walk_files(filter@, child@, entry.node, false);
                    let ghost before = found.deep_view();
                    match walk(filter, &child, &entry.node, false, found) {
                        Err(e) => {
                            proof {
                                lemma_prefix_chain(start, done, Paths::empty());
                                lemma_prefix_chain(start, before, found.deep_view());
                            }
                            return Err(e);
                        },
                        Ok(()) => {},
                    }
                    proof {
                        let files = here->Ok_0;
                        assert(found.deep_view() == before + files);
                        assert(start + done + files =~= start + (done + files));
                        if next is Ok {
                            assert(done + (files + next->Ok_0) =~= (done + files) + next->Ok_0);
                        }
                        done = done + files;
                    }
                }
                i += 1;
            }
            proof {
                assert(done + Paths::empty() =~= done);
                lemma_prefix_chain(start, done, Paths::empty());
            }
            Ok(())
        },
    }
}

} // verus!
