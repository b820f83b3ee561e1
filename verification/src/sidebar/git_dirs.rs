//! Where Git keeps the state of a worktree, and which directories are watched for it.
use vstd::prelude::*;

use crate::bytes::{lossy_text, split_zero};
use crate::paths::{FilePath, PathView};
use crate::tables::KeySet;
use crate::text;
use crate::values::Value;

verus! {

/// What stands at `.git` in a worktree.
pub enum DotGit {
    Directory,
    /// A file, with its text if that could be read.
    File(Option<String>),
    /// Nothing, or something else.
    Absent,
}

/// The path behind `gitdir: ` in a text, as seen from a worktree.
pub open spec fn git_dir_named(worktree: PathView, content: Seq<char>) -> Option<PathView> {
    if "gitdir: "@.is_prefix_of(content) {
        Some(
            worktree.join(
                crate::paths::path_of(
                    crate::bytes::utf8(
                        crate::text::trimmed(content.skip("gitdir: "@.len() as int)),
                    ),
                ),
            ),
        )
    } else {
        None
    }
}

/// The Git directory of a worktree: `.git` itself, or the one that the file `.git` of a linked
/// worktree names.
pub open spec fn git_dir_of(worktree: PathView, dot_git: DotGit) -> Option<PathView> {
    match dot_git {
        DotGit::Directory => Some(worktree.join(crate::paths::path_of(crate::bytes::utf8(".git"@)))),
        DotGit::File(Some(content)) => git_dir_named(worktree, content@),
        DotGit::File(None) => None,
        DotGit::Absent => None,
    }
}

/// Finds the Git directory of a worktree.
pub fn resolve_git_dir(worktree: &FilePath, dot_git: &DotGit) -> (dir: Option<FilePath>)
    ensures
        dir.deep_view() == git_dir_of(worktree.deep_view(), *dot_git),
        dir matches Some(dir) ==> dir.spelled() == crate::paths::joined(
            worktree.spelled(),
            crate::bytes::utf8(
                match dot_git {
                    DotGit::File(Some(content)) => crate::text::trimmed(
                        content@.skip("gitdir: "@.len() as int),
                    ),
                    _ => ".git"@,
                },
            ),
        ),
{
    match dot_git {
        DotGit::Directory => Some(worktree.child(".git")),
        DotGit::File(Some(content)) => match text::strip_prefix(content.as_str(), "gitdir: ") {
            Some(rest) => {
                proof {
                    let prefix = "gitdir: "@;
                    assert(prefix =~= content@.subrange(0, prefix.len() as int));
                    assert(content@.skip(prefix.len() as int) =~= rest@);
                }
                Some(worktree.child(text::trim(rest)))
            },
            None => None,
        },
        _ => None,
    }
}

/// The directory that the file `commondir` in a Git directory names.
pub fn named_common_dir(git_dir: &FilePath, content: &str) -> (dir: FilePath)
    ensures
        dir.deep_view() == git_dir.deep_view().join(
            crate::paths::path_of(crate::bytes::utf8(crate::text::trimmed(content@))),
        ),
        dir.spelled() == crate::paths::joined(
            git_dir.spelled(),
            crate::bytes::utf8(crate::text::trimmed(content@)),
        ),
{
    git_dir.child(text::trim(content))
}

/// The Git directory that linked worktrees share, in its canonical form if it has one. Without a
/// file `commondir` there is none.
pub fn resolve_common_git_dir(named: Option<FilePath>, canonical: Option<FilePath>) -> (dir: Option<
    FilePath,
>)
    ensures
        dir == (match (named, canonical) {
            (None, _) => None,
            (Some(named), None) => Some(named),
            (Some(_), Some(canonical)) => Some(canonical),
        }),
{
    match named {
        None => None,
        Some(named) => match canonical {
            Some(canonical) => Some(canonical),
            None => Some(named),
        },
    }
}

/// A directory to watch.
pub struct WorktreeWatchSpec {
    pub path: FilePath,
    /// Whether everything below it is watched too.
    pub recursive: bool,
}

/// A directory to watch.
#[verifier::ext_equal]
pub struct WatchView {
    pub path: PathView,
    /// The directory as it is spelled.
    pub spelled: Seq<u8>,
    pub recursive: bool,
}

/// The directory that bytes spell, to be watched.
pub open spec fn watch_of(spelled: Seq<u8>, recursive: bool) -> WatchView {
    WatchView { path: crate::paths::path_of(spelled), spelled, recursive }
}

impl DeepView for WorktreeWatchSpec {
    type V = WatchView;

    open spec fn deep_view(&self) -> WatchView {
        WatchView {
            path: self.path.deep_view(),
            spelled: self.path.spelled(),
            recursive: self.recursive,
        }
    }
}

/// The Git directories of a worktree.
pub enum GitLayout {
    /// A linked worktree: its own directory, and the shared one with whether it has `refs`.
    Linked { git_dir: Option<FilePath>, common: Option<(FilePath, bool)> },
    /// A worktree with a directory `.git`, and whether that has `refs`.
    Plain { has_refs: bool },
    /// Anything else.
    Absent,
}

/// The directories that are watched for the Git state of a worktree as it is spelled.
pub open spec fn metadata_watches(worktree: Seq<u8>, layout: GitLayout) -> Seq<WatchView> {
    let refs = crate::bytes::utf8("refs"@);
    match layout {
        GitLayout::Linked { git_dir: Some(git_dir), common } => {
            let own = seq![watch_of(git_dir.spelled(), false)];
            match common {
                Some((dir, has_refs)) => {
                    let dir = dir.spelled();
                    if has_refs {
                        own + seq![
                            watch_of(crate::paths::joined(dir, refs), true),
                            watch_of(dir, false),
                        ]
                    } else {
                        own + seq![watch_of(dir, false)]
                    }
                },
                None => own,
            }
        },
        GitLayout::Plain { has_refs } => {
            let dot_git = crate::paths::joined(worktree, crate::bytes::utf8(".git"@));
            let own = seq![watch_of(dot_git, false)];
            if has_refs {
                own + seq![watch_of(crate::paths::joined(dot_git, refs), true)]
            } else {
                own
            }
        },
        _ => Seq::empty(),
    }
}

/// The directories that are watched for a worktree as it is spelled: its Git directories, and its
/// files where that is wanted.
pub open spec fn watches_of(
    worktree: Seq<u8>,
    layout: GitLayout,
    watch_worktree_files: bool,
) -> Seq<WatchView> {
    let metadata = metadata_watches(worktree, layout);
    if watch_worktree_files {
        metadata.push(watch_of(worktree, true))
    } else {
        metadata
    }
}

fn watch(path: FilePath, recursive: bool) -> (spec: WorktreeWatchSpec)
    ensures
        spec.deep_view() == watch_of(path.spelled(), recursive),
{
    proof {
        crate::paths::spelling_spells_path(&path);
    }
    WorktreeWatchSpec { path, recursive }
}

/// Lists the directories to watch for a worktree.
pub fn worktree_watch_specs(
    worktree: &FilePath,
    layout: &GitLayout,
    watch_worktree_files: bool,
) -> (specs: Vec<WorktreeWatchSpec>)
    ensures
        specs.deep_view() == watches_of(worktree.spelled(), *layout, watch_worktree_files),
{
    let mut specs: Vec<WorktreeWatchSpec> = Vec::new();
    match layout {
        GitLayout::Linked { git_dir: Some(git_dir), common } => {
            specs.push(watch(git_dir.dup(), false));
            if let Some((dir, has_refs)) = common {
                if *has_refs {
                    specs.push(watch(dir.child("refs"), true));
                }
                specs.push(watch(dir.dup(), false));
            }
        },
        GitLayout::Plain { has_refs } => {
            let dot_git = worktree.child(".git");
            let refs = dot_git.child("refs");
            specs.push(watch(dot_git, false));
            if *has_refs {
                specs.push(watch(refs, true));
            }
        },
        _ => {},
    }
    assert(specs.deep_view() =~= metadata_watches(worktree.spelled(), *layout));
    if watch_worktree_files {
        specs.push(watch(worktree.dup(), true));
    }
    assert(specs.deep_view() =~= watches_of(worktree.spelled(), *layout, watch_worktree_files));
    specs
}

/// The path that a piece of a listing names, as seen from a worktree.
pub open spec fn listed_path(worktree: PathView, piece: Seq<u8>) -> PathView {
    worktree.join(crate::paths::path_of(crate::bytes::utf8(crate::bytes::shown(piece))))
}

/// The paths of a listing whose entries are ended by zero bytes.
pub open spec fn listed_paths(worktree: PathView, pieces: Seq<Seq<u8>>) -> Set<PathView> {
    Set::new(
        |path: PathView|
            exists|i: int|
                0 <= i < pieces.len() && (#[trigger] pieces[i]).len() > 0 && path == listed_path(
                    worktree,
                    pieces[i],
                ),
    )
}

/// How those paths are spelled.
pub open spec fn listed_spellings(worktree: Seq<u8>, pieces: Seq<Seq<u8>>) -> Set<Seq<u8>> {
    Set::new(
        |name: Seq<u8>|
            exists|i: int|
                0 <= i < pieces.len() && name == crate::paths::joined(
                    worktree,
                    crate::bytes::utf8(crate::bytes::shown(#[trigger] pieces[i])),
                ),
    )
}

/// The tracked files of a worktree that match ignore rules, by the listing that Git gave if it gave
/// one.
pub fn load_ignored_tracked_paths(worktree: &FilePath, listing: Option<&Vec<u8>>) -> (paths: KeySet<
    FilePath,
>)
    ensures
        paths.deep_view() == (match listing {
            Some(bytes) => listed_paths(worktree.deep_view(), crate::bytes::zero_pieces(bytes@)),
            None => Set::<PathView>::empty(),
        }),
        listing matches Some(bytes) ==> crate::paths::spellings(paths.members())
            <= listed_spellings(worktree.spelled(), crate::bytes::zero_pieces(bytes@)),
{
    let mut paths: KeySet<FilePath> = KeySet::new();
    let bytes = match listing {
        Some(bytes) => bytes,
        None => {
            return paths;
        },
    };
    let pieces = split_zero(bytes);
    let ghost all = pieces.deep_view();
    let ghost from = worktree.deep_view();
    assert(listed_paths(from, all.take(0)) =~= Set::<PathView>::empty());
    for i in 0..pieces.len()
        invariant
            all == pieces.deep_view(),
            from == worktree.deep_view(),
            paths.deep_view() == listed_paths(from, all.take(i as int)),
            crate::paths::spellings(paths.members()) <= listed_spellings(worktree.spelled(), all),
    {
        let ghost before = all.take(i as int);
        let ghost after = all.take(i + 1);
        assert(pieces@[i as int].deep_view() =~= pieces@[i as int]@);
        assert(all[i as int] == pieces@[i as int]@);
        if pieces[i].len() > 0 {
            paths.insert(worktree.child(lossy_text(pieces[i].as_slice()).as_str()));
        }
        proof {
            let new = listed_path(from, all[i as int]);
            assert forall|path: PathView| #[trigger] listed_paths(from, after).contains(path) == (
            listed_paths(from, before).contains(path) || (all[i as int].len() > 0 && path
                == new)) by {
                if listed_paths(from, before).contains(path) {
                    let j = choose|j: int|
                        0 <= j < before.len() && (#[trigger] before[j]).len() > 0 && path
                            == listed_path(from, before[j]);
                    assert(after[j] == before[j]);
                }
                if listed_paths(from, after).contains(path) {
                    let j = choose|j: int|
                        0 <= j < after.len() && (#[trigger] after[j]).len() > 0 && path
                            == listed_path(from, after[j]);
                    if j < i {
                        assert(before[j] == after[j]);
                    }
                }
                if all[i as int].len() > 0 && path == new {
                    assert(after[i as int] == all[i as int]);
                }
            }
            assert(paths.deep_view() =~= listed_paths(from, after));
        }
    }
    assert(all.take(all.len() as int) =~= all);
    paths
}

/// For a worktree with a directory `.git`, this directory is watched, its `refs` with all below them if there
/// are any, and the files of the worktree with all below them if that is wanted; nothing else is.
pub proof fn plain_worktrees_are_watched(
    worktree: Seq<u8>,
    has_refs: bool,
    watch_worktree_files: bool,
    watch: WatchView,
)
    ensures
        ({
            let watches = watches_of(
                worktree,
                GitLayout::Plain { has_refs },
                watch_worktree_files,
            );
            let dot_git = crate::paths::joined(worktree, crate::bytes::utf8(".git"@));
            watches.contains(watch) <==> {
                ||| watch.spelled == dot_git && !watch.recursive && watch.path
                    == crate::paths::path_of(dot_git)
                ||| has_refs && watch.spelled == crate::paths::joined(
                    dot_git,
                    crate::bytes::utf8("refs"@),
                ) && watch.recursive && watch.path == crate::paths::path_of(watch.spelled)
                ||| watch_worktree_files && watch.spelled == worktree && watch.recursive && watch.path
                    == crate::paths::path_of(worktree)
            }
        }),
{
    let watches = watches_of(worktree, GitLayout::Plain { has_refs }, watch_worktree_files);
    let dot_git = crate::paths::joined(worktree, crate::bytes::utf8(".git"@));
    let refs = crate::paths::joined(dot_git, crate::bytes::utf8("refs"@));
    assert(watches[0] == watch_of(dot_git, false));
    if has_refs {
        assert(watches[1] == watch_of(refs, true));
    }
    if watch_worktree_files {
        assert(watches.last() == watch_of(worktree, true));
    }
    if watches.contains(watch) {
        let n = choose|n: int| 0 <= n < watches.len() && watches[n] == watch;
    }
}

/// For a linked worktree, its own Git directory is watched, the shared one if it is known, the `refs` of the
/// shared one with all below them if there are any, and the files of the worktree with all below them if
/// that is wanted; nothing else is.
pub proof fn linked_worktrees_are_watched(
    worktree: Seq<u8>,
    git_dir: FilePath,
    common: Option<(FilePath, bool)>,
    watch_worktree_files: bool,
    watch: WatchView,
)
    ensures
        ({
            let watches = watches_of(
                worktree,
                GitLayout::Linked { git_dir: Some(git_dir), common },
                watch_worktree_files,
            );
            watches.contains(watch) <==> watch.path == crate::paths::path_of(watch.spelled) && {
                ||| watch.spelled == git_dir.spelled() && !watch.recursive
                ||| common is Some && watch.spelled == (common->0).0.spelled() && !watch.recursive
                ||| common is Some && (common->0).1 && watch.recursive && watch.spelled
                    == crate::paths::joined((common->0).0.spelled(), crate::bytes::utf8("refs"@))
                ||| watch_worktree_files && watch.spelled == worktree && watch.recursive
            }
        }),
{
    let watches = watches_of(
        worktree,
        GitLayout::Linked { git_dir: Some(git_dir), common },
        watch_worktree_files,
    );
    assert(watches[0] == watch_of(git_dir.spelled(), false));
    if let Some((dir, has_refs)) = common {
        let refs = crate::paths::joined(dir.spelled(), crate::bytes::utf8("refs"@));
        if has_refs {
            assert(watches[1] == watch_of(refs, true));
            assert(watches[2] == watch_of(dir.spelled(), false));
        } else {
            assert(watches[1] == watch_of(dir.spelled(), false));
        }
    }
    if watch_worktree_files {
        assert(watches.last() == watch_of(worktree, true));
    }
    if watches.contains(watch) {
        let n = choose|n: int| 0 <= n < watches.len() && watches[n] == watch;
    }
}

/// A file `.git` names a directory by what follows `gitdir: `, without the white space around; any other
/// text names none.
pub proof fn git_files_name_directories(
    worktree: PathView,
    content: String,
    before: Seq<char>,
    name: Seq<char>,
    after: Seq<char>,
)
    requires
        forall|i: int| 0 <= i < before.len() ==> crate::text::is_space(#[trigger] before[i]),
        forall|i: int| 0 <= i < after.len() ==> crate::text::is_space(#[trigger] after[i]),
        name.len() > 0 ==> !crate::text::is_space(name[0]) && !crate::text::is_space(name.last()),
    ensures
        content@ == "gitdir: "@ + (before + name + after) ==> git_dir_of(
            worktree,
            DotGit::File(Some(content)),
        ) == Some(worktree.join(crate::paths::path_of(crate::bytes::utf8(name)))),
        (forall|rest: Seq<char>| content@ != #[trigger] ("gitdir: "@ + rest)) ==> git_dir_of(
            worktree,
            DotGit::File(Some(content)),
        ) is None,
{
    let prefix = "gitdir: "@;
    let n = prefix.len() as int;
    crate::text::trimming_leaves_core(before, name, after);
    if content@ == prefix + (before + name + after) {
        assert(content@.skip(n) =~= before + name + after);
        assert(content@.subrange(0, n) =~= prefix);
    }
    if prefix.is_prefix_of(content@) {
        assert(content@ =~= prefix + content@.skip(n));
    }
}

/// The tracked files that a listing names are those of its entries that are not empty, each below the
/// worktree.
pub proof fn listings_are_read_by_entries(
    worktree: PathView,
    entry: Seq<u8>,
    rest: Seq<u8>,
    path: PathView,
)
    requires
        !entry.contains(0),
    ensures
        listed_paths(worktree, crate::bytes::zero_pieces(entry.push(0) + rest)).contains(path)
            <==> listed_paths(worktree, crate::bytes::zero_pieces(rest)).contains(path) || (
        entry.len() > 0 && path == worktree.join(
            crate::paths::path_of(crate::bytes::utf8(crate::bytes::shown(entry))),
        )),
        !listed_paths(worktree, crate::bytes::zero_pieces(Seq::empty())).contains(path),
{
    crate::bytes::zero_bytes_part_pieces(entry, rest);
    crate::bytes::zero_bytes_part_pieces(Seq::empty(), rest);
    let tail = crate::bytes::zero_pieces(rest);
    let all = crate::bytes::zero_pieces(entry.push(0) + rest);
    assert(all[0] == entry);
    assert forall|i: int| 0 <= i < tail.len() implies all[i + 1] == #[trigger] tail[i] by {}
    if listed_paths(worktree, tail).contains(path) {
        let i = choose|i: int|
            0 <= i < tail.len() && (#[trigger] tail[i]).len() > 0 && path == listed_path(
                worktree,
                tail[i],
            );
        assert(all[i + 1] == tail[i]);
    }
    if listed_paths(worktree, all).contains(path) {
        let i = choose|i: int|
            0 <= i < all.len() && (#[trigger] all[i]).len() > 0 && path == listed_path(
                worktree,
                all[i],
            );
        if i > 0 {
            assert(tail[i - 1] == all[i]);
        }
    }
}

} // verus!
