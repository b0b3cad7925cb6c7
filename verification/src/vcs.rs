//! What a version-controlled working tree holds, and the listing of the
//! files in it that belong to a package.

use vstd::prelude::*;
use vstd::string::*;
use crate::errors::{SourceError, SourceErrorView};
use crate::filter::{accepts, Filter, FilterView};
use crate::paths::FilePath;
use crate::seqs::{lemma_prefix_chain, lemma_prefixes_comparable};
use crate::tree::{
    build_dir_name, closed_to_walk, in_turn, lemma_walk_lists_nothing_of_package,
    lemma_walk_reaches, lockfile_name, may_list, package_at, walk, walk_files, FileTree, Paths,
};

verus! {

/// A repository as it was found: its working directory, the entries of
/// its index, whether it has no commit yet, and the entries of its
/// status with the untracked files among them.
#[derive(Debug)]
pub struct Repository {
    /// The working directory; a bare repository has none.
    pub workdir: Option<FilePath>,
    pub index: Vec<RepoEntry>,
    pub unborn: bool,
    pub statuses: Vec<RepoEntry>,
}

/// One entry of an index or of a status: its path below the working
/// directory, and what lies at that path.
#[derive(Debug)]
pub struct RepoEntry {
    pub path: FilePath,
    pub node: RepoNode,
}

/// What lies at the path of an entry.
#[derive(Debug)]
pub enum RepoNode {
    /// Anything that is not a directory.
    File,
    /// A directory that is a submodule, which is a repository itself.
    Submodule(Repository),
    /// A directory that is no submodule, or a submodule that could not be
    /// opened: where a directory does not open as a repository, it is
    /// walked like any other.
    Directory(FileTree),
}

/// What the listing of a package needs to know: the filter of the
/// package, whose root is the root of the package, and the directories of
/// the other packages of the source.
#[derive(Debug)]
pub struct Scope {
    pub filter: Filter,
    pub others: Vec<FilePath>,
}

/// What a `Scope` stands for.
pub struct ScopeView {
    pub filter: FilterView,
    pub others: Paths,
}

impl View for Scope {
    type V = ScopeView;

    open spec fn view(&self) -> ScopeView {
        ScopeView { filter: self.filter@, others: self.others.deep_view() }
    }
}

/// Whether the last component of `path` is `name`.
pub open spec fn named(path: Seq<Seq<char>>, name: Seq<char>) -> bool {
    path.len() > 0 && path.last() == name
}

/// Whether `path` lies in the directory of another package that is
/// nested in the package of the scope; such a file belongs to that
/// package.
pub open spec fn in_nested_package(scope: ScopeView, path: Seq<Seq<char>>) -> bool {
    exists|k: int|
        0 <= k < scope.others.len() && scope.filter.root.is_prefix_of(#[trigger] scope.others[k])
            && scope.others[k].is_prefix_of(path)
}

/// Whether the listing leaves out whatever lies at `path`: what is
/// outside the package, the lockfile and the build directory by their
/// names, and what lies in a nested package.
pub open spec fn left_out(scope: ScopeView, path: Seq<Seq<char>>) -> bool {
    ||| !scope.filter.root.is_prefix_of(path)
    ||| named(path, lockfile_name())
    ||| named(path, build_dir_name())
    ||| in_nested_package(scope, path)
}

/// The files of the package of `scope` that the listing of `repo` gives:
/// those of the index and, where the repository has no commit yet, those
/// of the status.
pub open spec fn repository_files(scope: ScopeView, repo: Repository) -> Result<
    Paths,
    SourceErrorView,
>
    decreases repo, 0nat, 0nat,
{
    match repo.workdir {
        None => Err(SourceErrorView::BareRepository),
        Some(workdir) => in_turn(
            entries_files(scope, workdir@, repo.index, 0),
            if repo.unborn {
                entries_files(scope, workdir@, repo.statuses, 0)
            } else {
                Ok(Seq::empty())
            },
        ),
    }
}

/// The files that the listing gives for the entries from `from` on.
pub open spec fn entries_files(
    scope: ScopeView,
    workdir: Seq<Seq<char>>,
    entries: Vec<RepoEntry>,
    from: nat,
) -> Result<Paths, SourceErrorView>
    decreases entries, 1nat, entries.len() - from,
{
    if from >= entries.len() {
        Ok(Seq::empty())
    } else {
        proof {
            broadcast use vstd::std_specs::vec::axiom_vec_index_decreases;

        }
        in_turn(
            entry_files(scope, workdir, entries[from as int]),
            entries_files(scope, workdir, entries, from + 1),
        )
    }
}

/// The files that the listing gives for one entry: none where the entry
/// is left out; the entry itself where it is a file that the filter
/// accepts; the listing of the submodule where it is one; else the walk
/// of the directory.
pub open spec fn entry_files(scope: ScopeView, workdir: Seq<Seq<char>>, entry: RepoEntry) -> Result<
    Paths,
    SourceErrorView,
>
    decreases entry, 0nat, 0nat,
{
    let path = workdir + entry.path@;
    if left_out(scope, path) {
        Ok(Seq::empty())
    } else {
        match entry.node {
            RepoNode::File => Ok(
                if accepts(scope.filter, path) {
                    seq![path]
                } else {
                    Seq::empty()
                },
            ),
            RepoNode::Submodule(repo) => repository_files(scope, repo),
            RepoNode::Directory(tree) => walk_files(scope.filter, path, tree, false),
        }
    }
}

/// Every file that the listing of a repository gives is accepted by the
/// filter of the package: it lies at or under the root of the package,
/// and the patterns of the manifest select it.
pub proof fn lemma_listing_accepted(scope: ScopeView, repo: Repository)
    ensures
        repository_files(scope, repo) matches Ok(files) ==> forall|i: int|
            0 <= i < files.len() ==> accepts(scope.filter, #[trigger] files[i]),
    decreases repo, 0nat, 0nat,
{
    match repo.workdir {
        None => {},
        Some(workdir) => {
            lemma_entries_accepted(scope, workdir@, repo.index, 0);
            if repo.unborn {
                lemma_entries_accepted(scope, workdir@, repo.statuses, 0);
            }
        },
    }
}

/// What `lemma_listing_accepted` says, for the entries from `from` on.
pub proof fn lemma_entries_accepted(
    scope: ScopeView,
    workdir: Seq<Seq<char>>,
    entries: Vec<RepoEntry>,
    from: nat,
)
    ensures
        entries_files(scope, workdir, entries, from) matches Ok(files) ==> forall|i: int|
            0 <= i < files.len() ==> accepts(scope.filter, #[trigger] files[i]),
    decreases entries, 1nat, entries.len() - from,
{
    broadcast use vstd::std_specs::vec::axiom_vec_index_decreases;

    if from < entries.len() {
        let entry = entries[from as int];
        let path = workdir + entry.path@;
        match entry.node {
            RepoNode::File => {},
            RepoNode::Submodule(repo) => {
                lemma_listing_accepted(scope, repo);
            },
            RepoNode::Directory(tree) => {
                lemma_walk_reaches(scope.filter, path, tree, false);
            },
        }
        lemma_entries_accepted(scope, workdir, entries, from + 1);
        let here = entry_files(scope, workdir, entry);
        let rest = entries_files(scope, workdir, entries, from + 1);
        let whole = entries_files(scope, workdir, entries, from);
        if whole is Ok {
            let files = whole->Ok_0;
            let a = here->Ok_0;
            let b = rest->Ok_0;
            assert(files == a + b);
            assert forall|i: int| 0 <= i < files.len() implies accepts(
                scope.filter,
                #[trigger] files[i],
            ) by {
                if i < a.len() {
                    assert(files[i] == a[i]);
                    if entry.node is Directory && !left_out(scope, path) {
                        assert(may_list(scope.filter, path, entry.node->Directory_0, false, a[i]));
                    }
                } else {
                    assert(files[i] == b[i - a.len()]);
                }
            }
        }
    }
}

/// The listing leaves out no file of the index that lies in the package
/// and that the filter accepts, unless the file bears the name of the
/// lockfile or of the build directory or lies in a nested package.
pub proof fn lemma_index_file_listed(scope: ScopeView, repo: Repository, j: int)
    requires
        repository_files(scope, repo) is Ok,
        repo.workdir is Some,
        0 <= j < repo.index.len(),
        repo.index[j].node is File,
        !left_out(scope, repo.workdir->Some_0@ + repo.index[j].path@),
        accepts(scope.filter, repo.workdir->Some_0@ + repo.index[j].path@),
    ensures
        repository_files(scope, repo)->Ok_0.contains(
            repo.workdir->Some_0@ + repo.index[j].path@,
        ),
{
    let workdir = repo.workdir->Some_0@;
    let file = workdir + repo.index[j].path@;
    lemma_entries_list_file(scope, workdir, repo.index, 0, j);
    let a = entries_files(scope, workdir, repo.index, 0)->Ok_0;
    let k = choose|k: int| 0 <= k < a.len() && a[k] == file;
    assert(repository_files(scope, repo)->Ok_0[k] == file);
}

/// What `lemma_index_file_listed` says, for the entries from `from` on.
pub proof fn lemma_entries_list_file(
    scope: ScopeView,
    workdir: Seq<Seq<char>>,
    entries: Vec<RepoEntry>,
    from: nat,
    j: int,
)
    requires
        entries_files(scope, workdir, entries, from) is Ok,
        from <= j < entries.len(),
        entries[j].node is File,
        !left_out(scope, workdir + entries[j].path@),
        accepts(scope.filter, workdir + entries[j].path@),
    ensures
        entries_files(scope, workdir, entries, from)->Ok_0.contains(workdir + entries[j].path@),
    decreases entries.len() - from,
{
    let file = workdir + entries[j].path@;
    let here = entry_files(scope, workdir, entries[from as int]);
    let rest = entries_files(scope, workdir, entries, from + 1);
    let files = entries_files(scope, workdir, entries, from)->Ok_0;
    let a = here->Ok_0;
    let b = rest->Ok_0;
    assert(files == a + b);
    if from == j {
        assert(files[0] == file);
    } else {
        lemma_entries_list_file(scope, workdir, entries, from + 1, j);
        let k = choose|k: int| 0 <= k < b.len() && b[k] == file;
        assert(files[a.len() + k] == file);
    }
}

/// Whether what was found agrees with the source that a package lies at
/// `nested`: every plain directory that `repo`, or a submodule of it,
/// has as an entry above `nested` holds at `nested` a directory with a
/// manifest. A package lies where its manifest lies, so this is true of
/// what is found on disk.
pub open spec fn package_marked(nested: Seq<Seq<char>>, repo: Repository) -> bool
    decreases repo, 0nat, 0nat,
{
    match repo.workdir {
        None => true,
        Some(workdir) => package_marked_in(nested, workdir@, repo.index, 0) && (repo.unborn
            ==> package_marked_in(nested, workdir@, repo.statuses, 0)),
    }
}

/// What `package_marked` asks, for the entries from `from` on.
pub open spec fn package_marked_in(
    nested: Seq<Seq<char>>,
    workdir: Seq<Seq<char>>,
    entries: Vec<RepoEntry>,
    from: nat,
) -> bool
    decreases entries, 1nat, entries.len() - from,
{
    if from >= entries.len() {
        true
    } else {
        proof {
            broadcast use vstd::std_specs::vec::axiom_vec_index_decreases;

        }
        package_marked_of(nested, workdir, entries[from as int]) && package_marked_in(
            nested,
            workdir,
            entries,
            from + 1,
        )
    }
}

/// What `package_marked` asks, for one entry.
pub open spec fn package_marked_of(
    nested: Seq<Seq<char>>,
    workdir: Seq<Seq<char>>,
    entry: RepoEntry,
) -> bool
    decreases entry, 0nat, 0nat,
{
    let path = workdir + entry.path@;
    match entry.node {
        RepoNode::Directory(tree) => path.is_prefix_of(nested) && path.len() < nested.len()
            ==> package_at(tree, nested.skip(path.len() as int)),
        RepoNode::Submodule(repo) => package_marked(nested, repo),
        RepoNode::File => true,
    }
}

/// The listing of a repository gives nothing that lies at or under the
/// root of another package of the source that is nested in the package:
/// no file of a nested package is among the files of the outer one.
pub proof fn lemma_listing_lists_nothing_of_package(scope: ScopeView, repo: Repository, k: int)
    requires
        0 <= k < scope.others.len(),
        scope.filter.root.is_prefix_of(scope.others[k]),
        package_marked(scope.others[k], repo),
    ensures
        repository_files(scope, repo) matches Ok(files) ==> forall|i: int|
            0 <= i < files.len() ==> !scope.others[k].is_prefix_of(#[trigger] files[i]),
    decreases repo, 0nat, 0nat,
{
    match repo.workdir {
        None => {},
        Some(workdir) => {
            lemma_entries_list_nothing_of_package(scope, workdir@, repo.index, 0, k);
            if repo.unborn {
                lemma_entries_list_nothing_of_package(scope, workdir@, repo.statuses, 0, k);
            }
        },
    }
}

/// What `lemma_listing_lists_nothing_of_package` says, for the entries
/// from `from` on.
pub proof fn lemma_entries_list_nothing_of_package(
    scope: ScopeView,
    workdir: Seq<Seq<char>>,
    entries: Vec<RepoEntry>,
    from: nat,
    k: int,
)
    requires
        0 <= k < scope.others.len(),
        scope.filter.root.is_prefix_of(scope.others[k]),
        package_marked_in(scope.others[k], workdir, entries, from),
    ensures
        entries_files(scope, workdir, entries, from) matches Ok(files) ==> forall|i: int|
            0 <= i < files.len() ==> !scope.others[k].is_prefix_of(#[trigger] files[i]),
    decreases entries, 1nat, entries.len() - from,
{
    broadcast use vstd::std_specs::vec::axiom_vec_index_decreases;

    if from < entries.len() {
        let nested = scope.others[k];
        let entry = entries[from as int];
        let path = workdir + entry.path@;
        assert(package_marked_of(nested, workdir, entry));
        lemma_entries_list_nothing_of_package(scope, workdir, entries, from + 1, k);
        let here = entry_files(scope, workdir, entry);
        let rest = entries_files(scope, workdir, entries, from + 1);
        let whole = entries_files(scope, workdir, entries, from);
        if whole is Ok {
            let files = whole->Ok_0;
            let a = here->Ok_0;
            let b = rest->Ok_0;
            assert(files == a + b);
            assert forall|i: int| 0 <= i < a.len() implies !nested.is_prefix_of(
                #[trigger] a[i],
            ) by {
                assert(!left_out(scope, path));
                assert(!nested.is_prefix_of(path));
                match entry.node {
                    RepoNode::File => {},
                    RepoNode::Submodule(repo) => {
                        lemma_listing_lists_nothing_of_package(scope, repo, k);
                    },
                    RepoNode::Directory(tree) => {
                        lemma_walk_reaches(scope.filter, path, tree, false);
                        assert(may_list(scope.filter, path, tree, false, a[i]));
                        if nested.is_prefix_of(a[i]) {
                            lemma_prefixes_comparable(path, nested, a[i]);
                            assert(path.len() < nested.len());
                            let rest_way = nested.skip(path.len() as int);
                            assert(path + rest_way =~= nested) by {
                                assert(path =~= nested.subrange(0, path.len() as int));
                            }
                            lemma_walk_lists_nothing_of_package(
                                scope.filter,
                                path,
                                tree,
                                false,
                                rest_way,
                            );
                        }
                    },
                }
            }
            assert forall|i: int| 0 <= i < files.len() implies !nested.is_prefix_of(
                #[trigger] files[i],
            ) by {
                if i < a.len() {
                    assert(files[i] == a[i]);
                } else {
                    assert(files[i] == b[i - a.len()]);
                }
            }
        }
    }
}

/// Whether `repo` and its submodules have no entry that is a plain
/// directory, so that nothing is listed by a walk. This is so of a
/// repository whose entries all come from its index, which holds files
/// and submodules only.
pub open spec fn without_walks(repo: Repository) -> bool
    decreases repo, 0nat, 0nat,
{
    without_walks_in(repo.index, 0) && (repo.unborn ==> without_walks_in(repo.statuses, 0))
}

/// What `without_walks` asks, for the entries from `from` on.
pub open spec fn without_walks_in(entries: Vec<RepoEntry>, from: nat) -> bool
    decreases entries, 1nat, entries.len() - from,
{
    if from >= entries.len() {
        true
    } else {
        proof {
            broadcast use vstd::std_specs::vec::axiom_vec_index_decreases;

        }
        without_walks_of(entries[from as int]) && without_walks_in(entries, from + 1)
    }
}

/// What `without_walks` asks, for one entry.
pub open spec fn without_walks_of(entry: RepoEntry) -> bool
    decreases entry, 0nat, 0nat,
{
    match entry.node {
        RepoNode::Directory(tree) => false,
        RepoNode::Submodule(repo) => without_walks(repo),
        _ => true,
    }
}

/// Where nothing is listed by a walk, every listed file is an entry that
/// the listing does not leave out: it lies in the package and in no
/// nested package, and it is neither called like the lockfile nor like
/// the build directory.
pub proof fn lemma_listed_entries_not_left_out(scope: ScopeView, repo: Repository)
    requires
        without_walks(repo),
    ensures
        repository_files(scope, repo) matches Ok(files) ==> forall|i: int|
            0 <= i < files.len() ==> !left_out(scope, #[trigger] files[i]) && accepts(
                scope.filter,
                files[i],
            ),
    decreases repo, 0nat, 0nat,
{
    match repo.workdir {
        None => {},
        Some(workdir) => {
            lemma_listed_entries_not_left_out_in(scope, workdir@, repo.index, 0);
            if repo.unborn {
                lemma_listed_entries_not_left_out_in(scope, workdir@, repo.statuses, 0);
            }
        },
    }
}

/// What `lemma_listed_entries_not_left_out` says, for the entries from
/// `from` on.
pub proof fn lemma_listed_entries_not_left_out_in(
    scope: ScopeView,
    workdir: Seq<Seq<char>>,
    entries: Vec<RepoEntry>,
    from: nat,
)
    requires
        without_walks_in(entries, from),
    ensures
        entries_files(scope, workdir, entries, from) matches Ok(files) ==> forall|i: int|
            0 <= i < files.len() ==> !left_out(scope, #[trigger] files[i]) && accepts(
                scope.filter,
                files[i],
            ),
    decreases entries, 1nat, entries.len() - from,
{
    broadcast use vstd::std_specs::vec::axiom_vec_index_decreases;

    if from < entries.len() {
        let entry = entries[from as int];
        assert(without_walks_of(entry));
        match entry.node {
            RepoNode::Submodule(repo) => {
                lemma_listed_entries_not_left_out(scope, repo);
            },
            _ => {},
        }
        lemma_listed_entries_not_left_out_in(scope, workdir, entries, from + 1);
        let here = entry_files(scope, workdir, entry);
        let rest = entries_files(scope, workdir, entries, from + 1);
        let whole = entries_files(scope, workdir, entries, from);
        if whole is Ok {
            let files = whole->Ok_0;
            let a = here->Ok_0;
            let b = rest->Ok_0;
            assert(files == a + b);
            assert forall|i: int| 0 <= i < files.len() implies !left_out(
                scope,
                #[trigger] files[i],
            ) && accepts(scope.filter, files[i]) by {
                if i < a.len() {
                    assert(files[i] == a[i]);
                } else {
                    assert(files[i] == b[i - a.len()]);
                }
            }
        }
    }
}

/// Whether every plain directory that `repo`, or a submodule of it, has
/// as an entry at `root` holds a manifest. The root of a package holds
/// the manifest of the package, so this is true of what is found on
/// disk.
pub open spec fn manifest_at_root(root: Seq<Seq<char>>, repo: Repository) -> bool
    decreases repo, 0nat, 0nat,
{
    match repo.workdir {
        None => true,
        Some(workdir) => manifest_at_root_in(root, workdir@, repo.index, 0) && (repo.unborn
            ==> manifest_at_root_in(root, workdir@, repo.statuses, 0)),
    }
}

/// What `manifest_at_root` asks, for the entries from `from` on.
pub open spec fn manifest_at_root_in(
    root: Seq<Seq<char>>,
    workdir: Seq<Seq<char>>,
    entries: Vec<RepoEntry>,
    from: nat,
) -> bool
    decreases entries, 1nat, entries.len() - from,
{
    if from >= entries.len() {
        true
    } else {
        proof {
            broadcast use vstd::std_specs::vec::axiom_vec_index_decreases;

        }
        manifest_at_root_of(root, workdir, entries[from as int]) && manifest_at_root_in(
            root,
            workdir,
            entries,
            from + 1,
        )
    }
}

/// What `manifest_at_root` asks, for one entry.
pub open spec fn manifest_at_root_of(
    root: Seq<Seq<char>>,
    workdir: Seq<Seq<char>>,
    entry: RepoEntry,
) -> bool
    decreases entry, 0nat, 0nat,
{
    match entry.node {
        RepoNode::Directory(tree) => workdir + entry.path@ == root ==> closed_to_walk(tree, false),
        RepoNode::Submodule(repo) => manifest_at_root(root, repo),
        _ => true,
    }
}

/// The listing of a repository gives neither the lockfile nor the build
/// directory at the root of the package, whatever the patterns of the
/// filter say.
pub proof fn lemma_listing_skips_at_root(scope: ScopeView, repo: Repository, name: Seq<char>)
    requires
        name == lockfile_name() || name == build_dir_name(),
        manifest_at_root(scope.filter.root, repo),
    ensures
        repository_files(scope, repo) matches Ok(files) ==> forall|i: int|
            0 <= i < files.len() ==> #[trigger] files[i] != scope.filter.root.push(name),
    decreases repo, 0nat, 0nat,
{
    match repo.workdir {
        None => {},
        Some(workdir) => {
            lemma_entries_skip_at_root(scope, workdir@, repo.index, 0, name);
            if repo.unborn {
                lemma_entries_skip_at_root(scope, workdir@, repo.statuses, 0, name);
            }
        },
    }
}

/// What `lemma_listing_skips_at_root` says, for the entries from `from`
/// on.
pub proof fn lemma_entries_skip_at_root(
    scope: ScopeView,
    workdir: Seq<Seq<char>>,
    entries: Vec<RepoEntry>,
    from: nat,
    name: Seq<char>,
)
    requires
        name == lockfile_name() || name == build_dir_name(),
        manifest_at_root_in(scope.filter.root, workdir, entries, from),
    ensures
        entries_files(scope, workdir, entries, from) matches Ok(files) ==> forall|i: int|
            0 <= i < files.len() ==> #[trigger] files[i] != scope.filter.root.push(name),
    decreases entries, 1nat, entries.len() - from,
{
    broadcast use vstd::std_specs::vec::axiom_vec_index_decreases;

    if from < entries.len() {
        lemma_entry_skips_at_root(scope, workdir, entries[from as int], name);
        lemma_entries_skip_at_root(scope, workdir, entries, from + 1, name);
    }
}

/// What `lemma_listing_skips_at_root` says, for one entry.
pub proof fn lemma_entry_skips_at_root(
    scope: ScopeView,
    workdir: Seq<Seq<char>>,
    entry: RepoEntry,
    name: Seq<char>,
)
    requires
        name == lockfile_name() || name == build_dir_name(),
        manifest_at_root_of(scope.filter.root, workdir, entry),
    ensures
        entry_files(scope, workdir, entry) matches Ok(files) ==> forall|i: int|
            0 <= i < files.len() ==> #[trigger] files[i] != scope.filter.root.push(name),
    decreases entry, 0nat, 0nat,
{
    let root = scope.filter.root;
    let target = root.push(name);
    let path = workdir + entry.path@;
    if !left_out(scope, path) {
        assert(path != target) by {
            if path == target {
                assert(named(path, name));
            }
        }
        match entry.node {
            RepoNode::File => {},
            RepoNode::Submodule(repo) => {
                lemma_listing_skips_at_root(scope, repo, name);
            },
            RepoNode::Directory(tree) => {
                lemma_walk_reaches(scope.filter, path, tree, false);
                let whole = walk_files(scope.filter, path, tree, false);
                if whole is Ok && !closed_to_walk(tree, false) {
                    let files = whole->Ok_0;
                    assert(path != root);
                    assert forall|i: int| 0 <= i < files.len() implies #[trigger] files[i]
                        != target by {
                        assert(may_list(scope.filter, path, tree, false, files[i]));
                        if files[i] == target {
                            assert(root.is_prefix_of(path));
                            assert(path.is_prefix_of(target));
                            assert(root =~= path.subrange(0, root.len() as int));
                            assert(path =~= target.subrange(0, path.len() as int));
                            if path.len() == root.len() {
                                assert(path =~= root);
                            } else {
                                assert(path.len() == target.len());
                                assert(path =~= target);
                            }
                        }
                    }
                }
            },
        }
    }
}

impl Scope {
    /// Whether `path` lies in the directory of a nested package.
    pub fn is_in_nested_package(&self, path: &FilePath) -> (r: bool)
        ensures
            r == in_nested_package(self@, path@),
    {
        let mut k: usize = 0;
        while k < self.others.len()
            invariant
                k <= self.others.len(),
                forall|j: int|
                    0 <= j < k ==> !(self@.filter.root.is_prefix_of(#[trigger] self@.others[j])
                        && self@.others[j].is_prefix_of(path@)),
            decreases self.others.len() - k,
        {
            assert(self@.others[k as int] == self.others[k as int]@);
            if self.others[k].starts_with(&self.filter.root) && path.starts_with(&self.others[k]) {
                return true;
            }
            k += 1;
        }
        false
    }

    /// Whether the listing leaves out whatever lies at `path`.
    pub fn leaves_out(&self, path: &FilePath) -> (r: bool)
        ensures
            r == left_out(self@, path@),
    {
        !path.starts_with(&self.filter.root) || path.is_named("Cargo.lock") || path.is_named(
            "target",
        ) || self.is_in_nested_package(path)
    }
}

/// Adds to `found` the files that the listing gives for `entries`.
fn list_entries(
    scope: &Scope,
    workdir: &FilePath,
    entries: &Vec<RepoEntry>,
    found: &mut Vec<FilePath>,
) -> (r: Result<(), SourceError>)
    ensures
        match entries_files(scope@, workdir@, *entries, 0) {
            Ok(files) => r is Ok && final(found).deep_view() == old(found).deep_view() + files,
            Err(e) => r matches Err(x) && x@ == e,
        },
        old(found).deep_view().is_prefix_of(final(found).deep_view()),
    decreases entries, 1nat, 0nat,
{
    let ghost start = found.deep_view();
    let ghost whole = entries_files(scope@, workdir@, *entries, 0);
    let ghost mut done: Paths = Seq::empty();
    assert(found.deep_view() =~= start + done);
    let mut i: usize = 0;
    while i < entries.len()
        invariant
            i <= entries.len(),
            start == old(found).deep_view(),
            found.deep_view() == start + done,
            whole == entries_files(scope@, workdir@, *entries, 0),
            whole == in_turn(Ok(done), entries_files(scope@, workdir@, *entries, i as nat)),
        decreases entries.len() - i,
    {
        proof {
            broadcast use vstd::std_specs::vec::axiom_vec_index_decreases;

        }
        let entry = &entries[i];
        let ghost next = entries_files(scope@, workdir@, *entries, (i + 1) as nat);
        let ghost here = entry_files(scope@, workdir@, *entry);
        let ghost before = found.deep_view();
        let path = workdir.concat(&entry.path);
        if scope.leaves_out(&path) {
            assert(found.deep_view() =~= before + Paths::empty());
        } else {
            match &entry.node {
                RepoNode::File => {
                    if scope.filter.accepts(&path) {
                        found.push(path);
                        assert(found.deep_view() =~= before + seq![path@]);
                    } else {
                        assert(found.deep_view() =~= before + Paths::empty());
                    }
                },
                RepoNode::Submodule(repo) => {
                    match list_repository(scope, repo, found) {
                        Err(e) => {
                            proof {
                                lemma_prefix_chain(start, done, Paths::empty());
                                lemma_prefix_chain(start, before, found.deep_view());
                            }
                            return Err(e);
                        },
                        Ok(()) => {},
                    }
                },
                RepoNode::Directory(tree) => {
                    match walk(&scope.filter, &path, tree, false, found) {
                        Err(e) => {
                            proof {
                                lemma_prefix_chain(start, done, Paths::empty());
                                lemma_prefix_chain(start, before, found.deep_view());
                            }
                            return Err(e);
                        },
                        Ok(()) => {},
                    }
                },
            }
        }
        proof {
            let files = here->Ok_0;
            assert(found.deep_view() == before + files);
            assert(start + done + files =~= start + (done + files));
            if next is Ok {
                assert(done + (files + next->Ok_0) =~= (done + files) + next->Ok_0);
            }
            done = done + files;
        }
        i += 1;
    }
    proof {
        assert(done + Paths::empty() =~= done);
        lemma_prefix_chain(start, done, Paths::empty());
    }
    Ok(())
}

/// Adds to `found` the files of the package of `scope` that `repo`
/// knows of: the entries of its index and, where it has no commit yet,
/// those of its status. Entries outside the package, the lockfile, the
/// build directory and what lies in a nested package are left out. An
/// entry that is a directory is listed as the repository that it is,
/// where it opens as one, and else walked. A bare repository and a
/// directory that could not be read end the listing.
pub fn list_repository(scope: &Scope, repo: &Repository, found: &mut Vec<FilePath>) -> (r: Result<
    (),
    SourceError,
>)
    ensures
        match repository_files(scope@, *repo) {
            Ok(files) => r is Ok && final(found).deep_view() == old(found).deep_view() + files,
            Err(e) => r matches Err(x) && x@ == e,
        },
        old(found).deep_view().is_prefix_of(final(found).deep_view()),
    decreases repo, 0nat, 0nat,
{
    let ghost start = found.deep_view();
    proof {
        lemma_prefix_chain(start, Paths::empty(), Paths::empty());
    }
    match &repo.workdir {
        None => Err(SourceError::BareRepository),
        Some(workdir) => {
            match list_entries(scope, workdir, &repo.index, found) {
                Err(e) => {
                    return Err(e);
                },
                Ok(()) => {},
            }
            let ghost index_files = entries_files(scope@, workdir@, repo.index, 0)->Ok_0;
            let ghost middle = found.deep_view();
            if repo.unborn {
                match list_entries(scope, workdir, &repo.statuses, found) {
                    Err(e) => {
                        proof {
                            lemma_prefix_chain(start, middle, found.deep_view());
                        }
                        return Err(e);
                    },
                    Ok(()) => {},
                }
                proof {
                    let rest = entries_files(scope@, workdir@, repo.statuses, 0)->Ok_0;
                    assert(start + index_files + rest =~= start + (index_files + rest));
                    lemma_prefix_chain(start, index_files + rest, Paths::empty());
                }
            } else {
                assert(index_files + Paths::empty() =~= index_files);
            }
            Ok(())
        },
    }
}

} // verus!
