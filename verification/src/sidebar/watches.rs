//! Which directories are watched, and for which worktrees.
use vstd::prelude::*;

use super::schedule::next_audit_path;
use crate::paths::{FilePath, PathView};
use crate::tables::{KeySet, Table};
use crate::values::Value;

verus! {

/// The worktrees for which each directory is watched, with one more.
pub open spec fn watched_for(
    by_path: Map<PathView, Set<PathView>>,
    path: PathView,
    worktree: PathView,
) -> Map<PathView, Set<PathView>> {
    let before = if by_path.contains_key(path) {
        by_path[path]
    } else {
        Set::empty()
    };
    by_path.insert(path, before.insert(worktree))
}

/// The worktrees for which each directory is watched, with one less. A directory that is watched
/// for none is not watched.
pub open spec fn unwatched_for(
    by_path: Map<PathView, Set<PathView>>,
    path: PathView,
    worktree: PathView,
) -> Map<PathView, Set<PathView>> {
    if by_path.contains_key(path) {
        let rest = by_path[path].remove(worktree);
        if rest == Set::<PathView>::empty() {
            by_path.remove(path)
        } else {
            by_path.insert(path, rest)
        }
    } else {
        by_path
    }
}

/// The worktrees for which each directory is watched, once several are not watched for one.
pub open spec fn unwatched_all(
    by_path: Map<PathView, Set<PathView>>,
    paths: Seq<PathView>,
    worktree: PathView,
) -> Map<PathView, Set<PathView>>
    decreases paths.len(),
{
    if paths.len() == 0 {
        by_path
    } else {
        unwatched_for(unwatched_all(by_path, paths.drop_last(), worktree), paths.last(), worktree)
    }
}

/// The directories that are then not watched any more, in order.
pub open spec fn released(
    by_path: Map<PathView, Set<PathView>>,
    paths: Seq<PathView>,
    worktree: PathView,
) -> Seq<PathView>
    decreases paths.len(),
{
    if paths.len() == 0 {
        Seq::empty()
    } else {
        let before = released(by_path, paths.drop_last(), worktree);
        let at = unwatched_all(by_path, paths.drop_last(), worktree);
        if at.contains_key(paths.last()) && !unwatched_for(at, paths.last(), worktree).contains_key(
            paths.last(),
        ) {
            before.push(paths.last())
        } else {
            before
        }
    }
}

/// Whether a directory is watched for a worktree.
pub open spec fn serves(
    by_path: Map<PathView, Set<PathView>>,
    path: PathView,
    worktree: PathView,
) -> bool {
    by_path.contains_key(path) && by_path[path].contains(worktree)
}

/// Whether a directory stands among those of a worktree.
pub open spec fn lists(
    by_worktree: Map<PathView, Seq<PathView>>,
    worktree: PathView,
    path: PathView,
) -> bool {
    by_worktree.contains_key(worktree) && by_worktree[worktree].contains(path)
}

/// Whether no directory is watched for nothing.
pub open spec fn all_needed(by_path: Map<PathView, Set<PathView>>) -> bool {
    forall|path: PathView| #[trigger]
        by_path.contains_key(path) ==> by_path[path] != Set::<PathView>::empty()
}

/// Whether both sides say the same: a directory is watched for a worktree if and only if it stands
/// among the directories of that worktree, and no directory is watched for nothing.
pub open spec fn agree(
    by_path: Map<PathView, Set<PathView>>,
    by_worktree: Map<PathView, Seq<PathView>>,
) -> bool {
    &&& forall|path: PathView, worktree: PathView|
        #![trigger serves(by_path, path, worktree)]
        #![trigger lists(by_worktree, worktree, path)]
        serves(by_path, path, worktree) == lists(by_worktree, worktree, path)
    &&& all_needed(by_path)
}

proof fn lemma_unwatched_for(
    by_path: Map<PathView, Set<PathView>>,
    last: PathView,
    worktree: PathView,
    path: PathView,
    other: PathView,
)
    ensures
        serves(unwatched_for(by_path, last, worktree), path, other) == (serves(by_path, path, other)
            && !(other == worktree && path == last)),
{
    if path == last && by_path.contains_key(last) {
        let rest = by_path[last].remove(worktree);
        assert(rest.contains(other) == (by_path[last].contains(other) && other != worktree));
        if rest == Set::<PathView>::empty() {
            assert(!rest.contains(other));
        }
    }
}

pub(crate) proof fn lemma_unwatched_all(
    by_path: Map<PathView, Set<PathView>>,
    paths: Seq<PathView>,
    worktree: PathView,
    path: PathView,
    other: PathView,
)
    requires
        all_needed(by_path),
    ensures
        all_needed(unwatched_all(by_path, paths, worktree)),
        unwatched_all(by_path, paths, worktree).contains_key(path) ==> by_path.contains_key(path),
        serves(unwatched_all(by_path, paths, worktree), path, other) == (serves(
            by_path,
            path,
            other,
        ) && !(other == worktree && paths.contains(path))),
    decreases paths.len(),
{
    if paths.len() > 0 {
        let before = paths.drop_last();
        let last = paths.last();
        lemma_unwatched_all(by_path, before, worktree, path, other);
        let at = unwatched_all(by_path, before, worktree);
        lemma_unwatched_for(at, last, worktree, path, other);
        assert(paths.contains(path) == (before.contains(path) || path == last)) by {
            if paths.contains(path) {
                let i = choose|i: int| 0 <= i < paths.len() && paths[i] == path;
                if i < before.len() {
                    assert(before[i] == path);
                }
            }
            if before.contains(path) {
                let i = choose|i: int| 0 <= i < before.len() && before[i] == path;
                assert(paths[i] == path);
            }
            assert(paths[paths.len() - 1] == last);
        }
    }
}

proof fn lemma_someone(set: Set<PathView>) -> (one: PathView)
    requires
        set != Set::<PathView>::empty(),
    ensures
        set.contains(one),
{
    if forall|one: PathView| !set.contains(one) {
        assert(set =~= Set::<PathView>::empty());
    }
    choose|one: PathView| set.contains(one)
}

pub(crate) proof fn lemma_released(
    by_path: Map<PathView, Set<PathView>>,
    paths: Seq<PathView>,
    worktree: PathView,
    path: PathView,
)
    requires
        all_needed(by_path),
    ensures
        released(by_path, paths, worktree).contains(path) == (by_path.contains_key(path)
            && !unwatched_all(by_path, paths, worktree).contains_key(path)),
    decreases paths.len(),
{
    if paths.len() > 0 {
        let before = paths.drop_last();
        let last = paths.last();
        lemma_released(by_path, before, worktree, path);
        lemma_unwatched_all(by_path, before, worktree, path, worktree);
        lemma_unwatched_all(by_path, before, worktree, last, worktree);
        let at = unwatched_all(by_path, before, worktree);
        let earlier = released(by_path, before, worktree);
        let all = released(by_path, paths, worktree);
        if at.contains_key(last) && !unwatched_for(at, last, worktree).contains_key(last) {
            assert(all == earlier.push(last));
            assert(all[all.len() - 1] == last);
            if earlier.contains(path) {
                let i = choose|i: int| 0 <= i < earlier.len() && earlier[i] == path;
                assert(all[i] == path);
            }
            if all.contains(path) && path != last {
                let i = choose|i: int| 0 <= i < all.len() && all[i] == path;
                assert(earlier[i] == path);
            }
        }
    }
}

/// Which directories are watched, and for which worktrees.
pub struct WatchBook {
    by_path: Table<FilePath, KeySet<FilePath>>,
    by_worktree: Table<FilePath, Vec<FilePath>>,
    complete: Table<FilePath, bool>,
}

/// Which directories are watched, and for which worktrees.
#[verifier::ext_equal]
pub struct WatchBookView {
    /// The worktrees for which a directory is watched.
    pub by_path: Map<PathView, Set<PathView>>,
    /// The directories that are watched for a worktree.
    pub by_worktree: Map<PathView, Seq<PathView>>,
    /// Whether everything is watched that was to be.
    pub complete: Map<PathView, bool>,
}

impl DeepView for WatchBook {
    type V = WatchBookView;

    closed spec fn deep_view(&self) -> WatchBookView {
        WatchBookView {
            by_path: self.by_path.deep_view(),
            by_worktree: self.by_worktree.deep_view(),
            complete: self.complete.deep_view(),
        }
    }
}

impl WatchBookView {
    /// Without anything that is watched.
    pub open spec fn nothing() -> WatchBookView {
        WatchBookView {
            by_path: Map::empty(),
            by_worktree: Map::empty(),
            complete: Map::empty(),
        }
    }

    /// The directories of a worktree.
    pub open spec fn paths_of(self, worktree: PathView) -> Seq<PathView> {
        if self.by_worktree.contains_key(worktree) {
            self.by_worktree[worktree]
        } else {
            Seq::empty()
        }
    }

    /// With nothing watched for a worktree.
    pub open spec fn detached(self, worktree: PathView) -> WatchBookView {
        WatchBookView {
            by_path: unwatched_all(self.by_path, self.paths_of(worktree), worktree),
            by_worktree: self.by_worktree.remove(worktree),
            complete: self.complete,
        }
    }

    /// With the watches of a worktree begun anew; `any` says whether anything is to be watched.
    pub open spec fn renewed(self, worktree: PathView, any: bool) -> WatchBookView {
        let bare = self.detached(worktree);
        WatchBookView {
            by_path: bare.by_path,
            by_worktree: bare.by_worktree.insert(worktree, Seq::empty()),
            complete: bare.complete.insert(worktree, any),
        }
    }

    /// With a directory watched for a worktree, if it is watched already or could be.
    pub open spec fn added(self, worktree: PathView, path: PathView, started: bool) -> WatchBookView {
        if self.by_path.contains_key(path) || started {
            WatchBookView {
                by_path: watched_for(self.by_path, path, worktree),
                by_worktree: self.by_worktree.insert(
                    worktree,
                    self.by_worktree[worktree].push(path),
                ),
                complete: self.complete,
            }
        } else {
            WatchBookView { complete: self.complete.insert(worktree, false), ..self }
        }
    }

    /// Without a word on whether everything is watched for a worktree.
    pub open spec fn forgotten(self, worktree: PathView) -> WatchBookView {
        WatchBookView { complete: self.complete.remove(worktree), ..self }
    }

    /// Whether everything is watched for a worktree that was to be.
    pub open spec fn is_complete(self, worktree: PathView) -> bool {
        self.complete.contains_key(worktree) && self.complete[worktree]
    }

    /// Whether both sides of the book agree.
    pub open spec fn sound(self) -> bool {
        agree(self.by_path, self.by_worktree)
    }
}

/// Begun anew, a book stays sound.
pub proof fn renewing_keeps_sound(book: WatchBookView, worktree: PathView, any: bool)
    requires
        book.sound(),
    ensures
        book.detached(worktree).sound(),
        book.renewed(worktree, any).sound(),
{
    let paths = book.paths_of(worktree);
    let bare = book.detached(worktree);
    let anew = book.renewed(worktree, any);
    lemma_unwatched_all(book.by_path, paths, worktree, worktree, worktree);
    assert forall|path: PathView, other: PathView|
        #![trigger serves(bare.by_path, path, other)]
        #![trigger lists(bare.by_worktree, other, path)]
        serves(bare.by_path, path, other) == lists(bare.by_worktree, other, path) by {
        assert(serves(book.by_path, path, other) == lists(book.by_worktree, other, path));
        lemma_unwatched_all(book.by_path, paths, worktree, path, other);
    }
    assert forall|path: PathView, other: PathView|
        #![trigger serves(anew.by_path, path, other)]
        #![trigger lists(anew.by_worktree, other, path)]
        serves(anew.by_path, path, other) == lists(anew.by_worktree, other, path) by {
        assert(serves(bare.by_path, path, other) == lists(bare.by_worktree, other, path));
        if other == worktree {
            assert(anew.by_worktree[other] =~= Seq::<PathView>::empty());
        }
    }
}

/// With one more directory, a book stays sound.
pub proof fn adding_keeps_sound(
    book: WatchBookView,
    worktree: PathView,
    path: PathView,
    started: bool,
)
    requires
        book.sound(),
        book.by_worktree.contains_key(worktree),
    ensures
        book.added(worktree, path, started).sound(),
{
    let after = book.added(worktree, path, started);
    let list = book.by_worktree[worktree];
    if book.by_path.contains_key(path) || started {
        assert forall|p: PathView, other: PathView|
            #![trigger serves(after.by_path, p, other)]
            #![trigger lists(after.by_worktree, other, p)]
            serves(after.by_path, p, other) == lists(after.by_worktree, other, p) by {
            assert(serves(book.by_path, p, other) == lists(book.by_worktree, other, p));
            if other == worktree {
                assert(list.push(path).contains(p) == (list.contains(p) || p == path)) by {
                    if list.contains(p) {
                        let i = choose|i: int| 0 <= i < list.len() && list[i] == p;
                        assert(list.push(path)[i] == p);
                    }
                    assert(list.push(path)[list.len() as int] == path);
                    if list.push(path).contains(p) && p != path {
                        let i = choose|i: int|
                            0 <= i < list.len() + 1 && list.push(path)[i] == p;
                        assert(list[i] == p);
                    }
                }
            }
        }
        assert forall|p: PathView| #[trigger] after.by_path.contains_key(p) implies after.by_path[p]
            != Set::<PathView>::empty() by {
            if p == path {
                assert(after.by_path[p].contains(worktree));
            }
        }
    }
}

/// What is not watched any more once a worktree is detached is what was watched for it alone.
pub proof fn released_is_what_no_one_needs(book: WatchBookView, worktree: PathView, path: PathView)
    requires
        book.sound(),
    ensures
        released(book.by_path, book.paths_of(worktree), worktree).contains(path) <==> (
        book.by_path.contains_key(path) && book.by_path[path] == set![worktree]),
{
    let paths = book.paths_of(worktree);
    let after = unwatched_all(book.by_path, paths, worktree);
    lemma_released(book.by_path, paths, worktree, path);
    lemma_unwatched_all(book.by_path, paths, worktree, path, worktree);
    if book.by_path.contains_key(path) {
        let needing = book.by_path[path];
        if after.contains_key(path) {
            let other = lemma_someone(after[path]);
            assert(serves(after, path, other));
            lemma_unwatched_all(book.by_path, paths, worktree, path, other);
            assert(needing.contains(other));
            if other == worktree {
                assert(!paths.contains(path));
                assert(serves(book.by_path, path, worktree));
                assert(lists(book.by_worktree, worktree, path));
            }
            assert(needing != set![worktree]);
        } else {
            assert forall|other: PathView| needing.contains(other) implies other == worktree by {
                if other != worktree {
                    lemma_unwatched_all(book.by_path, paths, worktree, path, other);
                    assert(serves(book.by_path, path, other));
                    assert(serves(after, path, other));
                }
            }
            let one = lemma_someone(needing);
            assert(needing =~= set![worktree]);
        }
    }
}

/// Removes a worktree from those for which a directory is watched, and says whether the directory
/// is not watched any more.
pub fn remove_worktree_watch(
    watch_path: &FilePath,
    worktree: &FilePath,
    watch_to_worktrees: &mut Table<FilePath, KeySet<FilePath>>,
) -> (unwatch: bool)
    ensures
        final(watch_to_worktrees).deep_view() == unwatched_for(
            old(watch_to_worktrees).deep_view(),
            watch_path.deep_view(),
            worktree.deep_view(),
        ),
        unwatch == (old(watch_to_worktrees).deep_view().contains_key(watch_path.deep_view())
            && !final(watch_to_worktrees).deep_view().contains_key(watch_path.deep_view())),
        member_spellings(final(watch_to_worktrees).values()) <= member_spellings(
            old(watch_to_worktrees).values(),
        ),
{
    match watch_to_worktrees.remove(watch_path) {
        Some(found) => {
            let mut worktrees = found;
            let _ = worktrees.remove(worktree);
            if worktrees.is_empty() {
                true
            } else {
                watch_to_worktrees.insert(watch_path.dup(), worktrees);
                assert(watch_to_worktrees.deep_view() =~= unwatched_for(
                    old(watch_to_worktrees).deep_view(),
                    watch_path.deep_view(),
                    worktree.deep_view(),
                ));
                false
            }
        },
        None => {
            assert(watch_to_worktrees.deep_view() =~= old(watch_to_worktrees).deep_view());
            false
        },
    }
}

/// How the members of sets are spelled.
pub open spec fn member_spellings(sets: Set<KeySet<FilePath>>) -> Set<Seq<u8>> {
    Set::new(
        |name: Seq<u8>|
            exists|set: KeySet<FilePath>| #[trigger]
                sets.contains(set) && crate::paths::spellings(set.members()).contains(name),
    )
}

/// How the paths of lists are spelled.
pub open spec fn list_spellings(lists: Set<Vec<FilePath>>) -> Set<Seq<u8>> {
    Set::new(
        |name: Seq<u8>|
            exists|list: Vec<FilePath>| #[trigger]
                lists.contains(list) && crate::paths::spellings_of(list@).contains(name),
    )
}

/// Whether the worktree `worktree` is among those for which a directory that holds a path is
/// watched.
pub open spec fn affected(
    event_path: PathView,
    by_path: Map<PathView, Set<PathView>>,
    worktree: PathView,
) -> bool {
    exists|dir: PathView| #[trigger]
        by_path.contains_key(dir) && event_path.starts_with(dir) && by_path[dir].contains(worktree)
}

/// The directories that hold a path and are watched for a worktree.
pub open spec fn holding(
    event_path: PathView,
    by_path: Map<PathView, Set<PathView>>,
    worktree: PathView,
) -> Set<PathView> {
    by_path.dom().filter(
        |dir: PathView| event_path.starts_with(dir) && by_path[dir].contains(worktree),
    )
}

/// Whether a list names each worktree that an event affects, as often as there are directories that
/// hold the path and are watched for it.
pub open spec fn names_affected(
    list: Seq<PathView>,
    event_path: PathView,
    by_path: Map<PathView, Set<PathView>>,
) -> bool {
    forall|worktree: PathView| #[trigger]
        list.to_multiset().count(worktree) == holding(event_path, by_path, worktree).len()
}

/// How many of some pairs are a directory that holds a path with the worktrees for which it is
/// watched, a given one among them.
spec fn hits(
    pairs: Seq<(PathView, Set<PathView>)>,
    event_path: PathView,
    worktree: PathView,
) -> nat
    decreases pairs.len(),
{
    if pairs.len() == 0 {
        0
    } else {
        let last = pairs.last();
        hits(pairs.drop_last(), event_path, worktree) + if event_path.starts_with(last.0)
            && last.1.contains(worktree) {
            1
        } else {
            0nat
        }
    }
}

proof fn lemma_hits(
    pairs: Seq<(PathView, Set<PathView>)>,
    event_path: PathView,
    worktree: PathView,
)
    requires
        crate::tables::distinct_keys(pairs),
    ensures
        holding(event_path, crate::tables::pairs_map(pairs), worktree).finite(),
        holding(event_path, crate::tables::pairs_map(pairs), worktree).len() == hits(
            pairs,
            event_path,
            worktree,
        ),
    decreases pairs.len(),
{
    let by_path = crate::tables::pairs_map(pairs);
    let all = holding(event_path, by_path, worktree);
    if pairs.len() == 0 {
        assert(all =~= Set::empty());
    } else {
        let shorter = pairs.drop_last();
        let last = pairs.last();
        let n = shorter.len() as int;
        assert(pairs[n] == last);
        assert forall|k: int| 0 <= k < n implies #[trigger] shorter[k] == pairs[k] by {}
        lemma_hits(shorter, event_path, worktree);
        let fewer_by_path = crate::tables::pairs_map(shorter);
        let fewer = holding(event_path, fewer_by_path, worktree);
        crate::tables::lemma_pair_found(pairs, n);
        assert forall|dir: PathView| #[trigger] fewer_by_path.contains_key(dir) implies dir
            != last.0 && by_path.contains_pair(dir, fewer_by_path[dir]) by {
            let k = choose|k: int| 0 <= k < shorter.len() && (#[trigger] shorter[k]).0 == dir;
            crate::tables::lemma_pair_found(shorter, k);
            crate::tables::lemma_pair_found(pairs, k);
            assert(pairs[k].0 != pairs[n].0);
        }
        assert forall|dir: PathView| by_path.contains_key(dir) && dir != last.0 implies
            #[trigger] fewer_by_path.contains_key(dir) by {
            let k = choose|k: int| 0 <= k < pairs.len() && (#[trigger] pairs[k]).0 == dir;
            crate::tables::lemma_pair_found(shorter, k);
        }
        if event_path.starts_with(last.0) && last.1.contains(worktree) {
            assert(all =~= fewer.insert(last.0));
            assert(!fewer.contains(last.0));
        } else {
            assert forall|dir: PathView| #[trigger] all.contains(dir) == fewer.contains(dir) by {
                assert(by_path.contains_key(dir) && dir != last.0 ==> fewer_by_path.contains_key(
                    dir,
                ));
                assert(fewer_by_path.contains_key(dir) ==> by_path.contains_pair(
                    dir,
                    fewer_by_path[dir],
                ));
            }
            assert(all =~= fewer);
        }
    }
}

/// Each worktree that an event affects is named.
pub proof fn affected_are_named(
    list: Seq<PathView>,
    event_path: PathView,
    pairs: Seq<(PathView, Set<PathView>)>,
    worktree: PathView,
)
    requires
        crate::tables::distinct_keys(pairs),
        names_affected(list, event_path, crate::tables::pairs_map(pairs)),
    ensures
        list.contains(worktree) == affected(
            event_path,
            crate::tables::pairs_map(pairs),
            worktree,
        ),
{
    let by_path = crate::tables::pairs_map(pairs);
    let all = holding(event_path, by_path, worktree);
    list.to_multiset_ensures();
    lemma_hits(pairs, event_path, worktree);
    assert(list.to_multiset().count(worktree) == all.len());
    if affected(event_path, by_path, worktree) {
        let dir = choose|dir: PathView| #[trigger]
            by_path.contains_key(dir) && event_path.starts_with(dir) && by_path[dir].contains(
                worktree,
            );
        assert(all.contains(dir));
    }
    if all.len() > 0 {
        let dir = all.choose();
        assert(all.contains(dir));
        assert(by_path.contains_key(dir));
    }
}

proof fn lemma_named_next(
    pairs: Seq<(PathView, Set<PathView>)>,
    event_path: PathView,
    i: int,
    before: Seq<PathView>,
    listed: Seq<PathView>,
)
    requires
        0 <= i < pairs.len(),
        forall|worktree: PathView| #[trigger]
            before.to_multiset().count(worktree) == hits(pairs.take(i), event_path, worktree),
        event_path.starts_with(pairs[i].0),
        listed.no_duplicates(),
        listed.to_set() == pairs[i].1,
    ensures
        forall|worktree: PathView| #[trigger]
            (before + listed).to_multiset().count(worktree) == hits(
                pairs.take(i + 1),
                event_path,
                worktree,
            ),
{
    let longer = pairs.take(i + 1);
    assert(longer.drop_last() =~= pairs.take(i));
    assert(longer.last() == pairs[i]);
    vstd::seq_lib::lemma_multiset_commutative(before, listed);
    listed.lemma_multiset_has_no_duplicates();
    listed.to_multiset_ensures();
    assert forall|worktree: PathView| #[trigger]
        (before + listed).to_multiset().count(worktree) == hits(longer, event_path, worktree) by {
        assert(before.to_multiset().count(worktree) == hits(
            pairs.take(i),
            event_path,
            worktree,
        ));
        assert(listed.to_set().contains(worktree) == listed.contains(worktree));
    }
}

/// The worktrees that an event at a path affects. One for which several directories are watched
/// that hold the path occurs as many times.
pub fn find_worktrees_for_path(
    event_path: &FilePath,
    watch_to_worktrees: &Table<FilePath, KeySet<FilePath>>,
) -> (found: Vec<FilePath>)
    ensures
        names_affected(
            found.deep_view(),
            event_path.deep_view(),
            watch_to_worktrees.deep_view(),
        ),
        forall|worktree: PathView| #[trigger]
            found.deep_view().contains(worktree) == affected(
                event_path.deep_view(),
                watch_to_worktrees.deep_view(),
                worktree,
            ),
        crate::paths::spellings_of(found@) <= member_spellings(watch_to_worktrees.values()),
{
    let mut found: Vec<FilePath> = Vec::new();
    let ghost event = event_path.deep_view();
    let count: usize = watch_to_worktrees.len();
    let ghost pairs = watch_to_worktrees.pairs();
    proof {
        assert(found.deep_view() =~= Seq::<PathView>::empty());
        found.deep_view().to_multiset_ensures();
        assert(pairs.take(0).len() == 0);
    }
    for i in 0..count
        invariant
            pairs == watch_to_worktrees.pairs(),
            event == event_path.deep_view(),
            count == pairs.len(),
            forall|worktree: PathView| #[trigger]
                found.deep_view().to_multiset().count(worktree) == hits(
                    pairs.take(i as int),
                    event,
                    worktree,
                ),
            crate::paths::spellings_of(found@) <= member_spellings(watch_to_worktrees.values()),
    {
        if event_path.starts_with(watch_to_worktrees.key_at(i)) {
            let worktrees = watch_to_worktrees.value_at(i);
            let inner: usize = worktrees.len();
            let ghost listed = worktrees.listed();
            let ghost before = found.deep_view();
            assert(before =~= before + listed.take(0));
            for k in 0..inner
                invariant
                    inner == listed.len(),
                    listed == worktrees.listed(),
                    found.deep_view() == before + listed.take(k as int),
                    watch_to_worktrees.values().contains(*worktrees),
                    crate::paths::spellings_of(found@) <= member_spellings(
                        watch_to_worktrees.values(),
                    ),
            {
                let ghost held = found.deep_view();
                let ghost earlier = found@;
                let worktree = worktrees.at(k).dup();
                assert(crate::paths::spellings(worktrees.members()).contains(worktree.spelled()));
                found.push(worktree);
                proof {
                    crate::paths::lemma_spelling_pushed(earlier, found@);
                }
                assert(found.deep_view() =~= held.push(listed[k as int]));
                assert(listed.take(k + 1) =~= listed.take(k as int).push(listed[k as int]));
                assert(found.deep_view() =~= before + listed.take(k + 1));
            }
            proof {
                assert(listed.take(listed.len() as int) =~= listed);
                lemma_named_next(pairs, event, i as int, before, listed);
            }
        } else {
            assert(pairs.take(i + 1).drop_last() =~= pairs.take(i as int));
        }
    }
    proof {
        assert(pairs.take(pairs.len() as int) =~= pairs);
        let list = found.deep_view();
        assert forall|worktree: PathView| #[trigger]
            list.to_multiset().count(worktree) == holding(
                event,
                watch_to_worktrees.deep_view(),
                worktree,
            ).len() by {
            lemma_hits(pairs, event, worktree);
        }
        assert forall|worktree: PathView| #[trigger] list.contains(worktree) == affected(
            event,
            watch_to_worktrees.deep_view(),
            worktree,
        ) by {
            affected_are_named(list, event, pairs, worktree);
        }
    }
    found
}

impl WatchBook {
    #[verifier::type_invariant]
    spec fn well_formed(&self) -> bool {
        agree(self.by_path.deep_view(), self.by_worktree.deep_view())
    }

    /// How the worktrees are spelled for which anything is watched.
    pub closed spec fn worktree_spellings(&self) -> Set<Seq<u8>> {
        member_spellings(self.by_path.values()).union(
            crate::paths::spellings(self.by_worktree.keys()),
        )
    }

    /// How the directories are spelled that are watched.
    pub closed spec fn dir_spellings(&self) -> Set<Seq<u8>> {
        list_spellings(self.by_worktree.values())
    }

    /// A book in which nothing is watched.
    pub fn new() -> (book: Self)
        ensures
            book.deep_view() == WatchBookView::nothing(),
            book.worktree_spellings() == Set::<Seq<u8>>::empty(),
            book.dir_spellings() == Set::<Seq<u8>>::empty(),
    {
        let book = WatchBook {
            by_path: Table::new(),
            by_worktree: Table::new(),
            complete: Table::new(),
        };
        assert(book.worktree_spellings() =~= Set::<Seq<u8>>::empty());
        assert(book.dir_spellings() =~= Set::<Seq<u8>>::empty());
        book
    }

    /// Whether a directory is not watched yet, so that watching it must be started.
    pub fn needs_start(&self, path: &FilePath) -> (yes: bool)
        ensures
            yes == !self.deep_view().by_path.contains_key(path.deep_view()),
    {
        !self.by_path.contains_key(path)
    }

    /// Whether the watches of a worktree were set up.
    pub fn has_watches(&self, worktree: &FilePath) -> (yes: bool)
        ensures
            yes == self.deep_view().by_worktree.contains_key(worktree.deep_view()),
    {
        self.by_worktree.contains_key(worktree)
    }

    /// Whether everything is watched for a worktree that was to be.
    pub fn is_complete(&self, worktree: &FilePath) -> (yes: bool)
        ensures
            yes == self.deep_view().is_complete(worktree.deep_view()),
    {
        match self.complete.get(worktree) {
            Some(complete) => *complete,
            None => false,
        }
    }

    /// The next worktree to audit.
    pub fn next_audit(&self, paths: &Vec<FilePath>, cursor: &mut usize) -> (path: Option<FilePath>)
        ensures
            ({
                let complete = super::schedule::completeness(
                    paths.deep_view(),
                    self.deep_view().complete,
                );
                &&& *final(cursor) == super::schedule::next_cursor(complete, *old(cursor) as int)
                &&& match path {
                    Some(path) => {
                        &&& paths@.len() > 0
                        &&& super::schedule::next_place(
                            complete,
                            *old(cursor) as int % (paths@.len() as int),
                            0,
                        ) matches Some(at)
                        &&& 0 <= at < paths@.len()
                        &&& paths.deep_view()[at] == path.deep_view()
                    },
                    None => paths@.len() == 0 || super::schedule::next_place(
                        complete,
                        *old(cursor) as int % (paths@.len() as int),
                        0,
                    ) is None,
                }
            }),
            path matches Some(path) ==> crate::paths::spellings_of(paths@).contains(
                path.spelled(),
            ),
    {
        next_audit_path(paths, &self.complete, cursor)
    }

    /// The worktrees that an event at a path affects. The book is sound.
    pub fn worktrees_for(&self, event_path: &FilePath) -> (found: Vec<FilePath>)
        ensures
            names_affected(
                found.deep_view(),
                event_path.deep_view(),
                self.deep_view().by_path,
            ),
            forall|worktree: PathView| #[trigger]
                found.deep_view().contains(worktree) == affected(
                    event_path.deep_view(),
                    self.deep_view().by_path,
                    worktree,
                ),
            crate::paths::spellings_of(found@) <= self.worktree_spellings(),
            self.deep_view().sound(),
    {
        proof {
            use_type_invariant(self);
        }
        find_worktrees_for_path(event_path, &self.by_path)
    }

    /// The worktrees whose watches were set up and that are not among some.
    pub fn worktrees_beyond(&self, wanted: &KeySet<FilePath>) -> (found: Vec<FilePath>)
        ensures
            forall|worktree: PathView| #[trigger]
                found.deep_view().contains(worktree) == (
                self.deep_view().by_worktree.contains_key(worktree) && !wanted.deep_view().contains(
                    worktree,
                )),
            found.deep_view().no_duplicates(),
            crate::paths::spellings_of(found@) <= self.worktree_spellings(),
    {
        let mut found: Vec<FilePath> = Vec::new();
        let ghost pairs = self.by_worktree.pairs();
        let ghost all = self.by_worktree.deep_view();
        let count: usize = self.by_worktree.len();
        for i in 0..count
            invariant
                count == pairs.len(),
                pairs == self.by_worktree.pairs(),
                all == self.by_worktree.deep_view(),
                crate::tables::distinct_keys(pairs),
                forall|worktree: PathView| #[trigger]
                    found.deep_view().contains(worktree) ==> all.contains_key(worktree)
                        && !wanted.deep_view().contains(worktree),
                found.deep_view().no_duplicates(),
                forall|j: int|
                    i <= j < pairs.len() ==> !found.deep_view().contains((#[trigger] pairs[j]).0),
                forall|j: int|
                    0 <= j < i && !wanted.deep_view().contains((#[trigger] pairs[j]).0)
                        ==> found.deep_view().contains(pairs[j].0),
                crate::paths::spellings_of(found@) <= self.worktree_spellings(),
        {
            let worktree = self.by_worktree.key_at(i);
            let ghost held = found.deep_view();
            let ghost earlier = found@;
            assert(self.worktree_spellings().contains(worktree.spelled()));
            if !wanted.contains(worktree) {
                found.push(worktree.dup());
                proof {
                    let now = found.deep_view();
                    assert(now =~= held.push(pairs[i as int].0));
                    crate::lists::lemma_push_new(held, pairs[i as int].0);
                    crate::paths::lemma_spelling_pushed(earlier, found@);
                    assert forall|w: PathView| #[trigger] now.contains(w) implies all.contains_key(w)
                        && !wanted.deep_view().contains(w) by {
                        let n = choose|n: int| 0 <= n < now.len() && now[n] == w;
                        if n < held.len() {
                            assert(held.contains(held[n]));
                        }
                    }
                    assert forall|j: int|
                        0 <= j < i + 1 && !wanted.deep_view().contains(
                            (#[trigger] pairs[j]).0,
                        ) implies now.contains(pairs[j].0) by {
                        if j < i {
                            let n = choose|n: int| 0 <= n < held.len() && held[n] == pairs[j].0;
                            assert(now[n] == pairs[j].0);
                        } else {
                            assert(now[held.len() as int] == pairs[j].0);
                        }
                    }
                }
            }
        }
        proof {
            assert forall|worktree: PathView|
                all.contains_key(worktree) && !wanted.deep_view().contains(worktree) implies
                #[trigger] found.deep_view().contains(worktree) by {
                let j = choose|j: int| 0 <= j < pairs.len() && (#[trigger] pairs[j]).0 == worktree;
                assert(found.deep_view().contains(pairs[j].0));
            }
        }
        found
    }

    /// Takes back everything that is watched for a worktree, and lists what is then not watched
    /// any more.
    pub fn detach_worktree_watches(&mut self, worktree: &FilePath) -> (unwatch: Vec<FilePath>)
        ensures
            final(self).deep_view() == old(self).deep_view().detached(worktree.deep_view()),
            unwatch.deep_view() == released(
                old(self).deep_view().by_path,
                old(self).deep_view().paths_of(worktree.deep_view()),
                worktree.deep_view(),
            ),
            crate::paths::spellings_of(unwatch@) <= old(self).dir_spellings(),
            final(self).worktree_spellings() <= old(self).worktree_spellings(),
            final(self).dir_spellings() <= old(self).dir_spellings(),
    {
        proof {
            use_type_invariant(&*self);
        }
        let ghost names = self.worktree_spellings();
        let ghost dirs = self.dir_spellings();
        let ghost before = self.deep_view();
        let ghost at = worktree.deep_view();
        let mut book = WatchBook::new();
        std::mem::swap(&mut book, self);
        let WatchBook { mut by_path, mut by_worktree, complete } = book;
        let mut unwatch: Vec<FilePath> = Vec::new();
        let paths = match by_worktree.remove(worktree) {
            Some(paths) => paths,
            None => Vec::new(),
        };
        let ghost list = paths.deep_view();
        assert(crate::paths::spellings_of(paths@) <= dirs);
        assert(list =~= before.paths_of(at));
        assert(list.take(0) =~= Seq::<PathView>::empty());
        assert(unwatch.deep_view() =~= Seq::<PathView>::empty());
        for i in 0..paths.len()
            invariant
                list == paths.deep_view(),
                at == worktree.deep_view(),
                by_path.deep_view() == unwatched_all(before.by_path, list.take(i as int), at),
                unwatch.deep_view() == released(before.by_path, list.take(i as int), at),
                crate::paths::spellings_of(paths@) <= dirs,
                crate::paths::spellings_of(unwatch@) <= dirs,
                member_spellings(by_path.values()) <= names,
        {
            let ghost held = unwatch.deep_view();
            let ghost earlier = unwatch@;
            assert(crate::paths::spellings_of(paths@).contains(paths@[i as int].spelled()));
            assert(list.take(i + 1).drop_last() =~= list.take(i as int));
            assert(list.take(i + 1).last() == list[i as int]);
            if remove_worktree_watch(&paths[i], worktree, &mut by_path) {
                unwatch.push(paths[i].dup());
                assert(unwatch.deep_view() =~= held.push(list[i as int]));
                proof {
                    crate::paths::lemma_spelling_pushed(earlier, unwatch@);
                }
            }
        }
        assert(list.take(list.len() as int) =~= list);
        proof {
            renewing_keeps_sound(before, at, true);
        }
        *self = WatchBook { by_path, by_worktree, complete };
        assert(self.deep_view() =~= before.detached(at));
        unwatch
    }

    /// Begins the watches of a worktree anew, and lists what is not watched any more for now.
    pub fn begin_watches(&mut self, worktree: &FilePath, any: bool) -> (unwatch: Vec<FilePath>)
        ensures
            final(self).deep_view() == old(self).deep_view().renewed(worktree.deep_view(), any),
            unwatch.deep_view() == released(
                old(self).deep_view().by_path,
                old(self).deep_view().paths_of(worktree.deep_view()),
                worktree.deep_view(),
            ),
            crate::paths::spellings_of(unwatch@) <= old(self).dir_spellings(),
            final(self).worktree_spellings() <= old(self).worktree_spellings().insert(
                worktree.spelled(),
            ),
            final(self).dir_spellings() <= old(self).dir_spellings(),
    {
        proof {
            use_type_invariant(&*self);
        }
        let ghost before = self.deep_view();
        let ghost at = worktree.deep_view();
        let unwatch = self.detach_worktree_watches(worktree);
        let mut book = WatchBook::new();
        std::mem::swap(&mut book, self);
        let WatchBook { by_path, mut by_worktree, mut complete } = book;
        let paths: Vec<FilePath> = Vec::new();
        assert(paths.deep_view() =~= Seq::<PathView>::empty());
        by_worktree.insert(worktree.dup(), paths);
        complete.insert(worktree.dup(), any);
        proof {
            renewing_keeps_sound(before, at, any);
        }
        *self = WatchBook { by_path, by_worktree, complete };
        unwatch
    }

    /// Watches a directory for a worktree, if it is watched already or was started, and says
    /// whether it is watched.
    pub fn add_watch(&mut self, worktree: &FilePath, path: &FilePath, started: bool) -> (watched:
        bool)
        requires
            old(self).deep_view().by_worktree.contains_key(worktree.deep_view()),
        ensures
            final(self).deep_view() == old(self).deep_view().added(
                worktree.deep_view(),
                path.deep_view(),
                started,
            ),
            watched == (old(self).deep_view().by_path.contains_key(path.deep_view()) || started),
            final(self).worktree_spellings() <= old(self).worktree_spellings().insert(
                worktree.spelled(),
            ),
            final(self).dir_spellings() <= old(self).dir_spellings().insert(path.spelled()),
    {
        proof {
            use_type_invariant(&*self);
        }
        let ghost before = self.deep_view();
        let ghost at = worktree.deep_view();
        let mut book = WatchBook::new();
        std::mem::swap(&mut book, self);
        let WatchBook { mut by_path, mut by_worktree, mut complete } = book;
        proof {
            adding_keeps_sound(before, at, path.deep_view(), started);
        }
        let watched = by_path.contains_key(path) || started;
        if watched {
            let mut worktrees = match by_path.remove(path) {
                Some(worktrees) => worktrees,
                None => KeySet::new(),
            };
            worktrees.insert(worktree.dup());
            by_path.insert(path.dup(), worktrees);
            let mut paths = match by_worktree.remove(worktree) {
                Some(paths) => paths,
                None => Vec::new(),
            };
            let ghost held = paths.deep_view();
            paths.push(path.dup());
            assert(paths.deep_view() =~= held.push(path.deep_view()));
            by_worktree.insert(worktree.dup(), paths);
            assert(by_path.deep_view() =~= watched_for(before.by_path, path.deep_view(), at));
            assert(by_worktree.deep_view() =~= before.added(
                at,
                path.deep_view(),
                started,
            ).by_worktree);
        } else {
            complete.insert(worktree.dup(), false);
        }
        *self = WatchBook { by_path, by_worktree, complete };
        watched
    }

    /// Forgets whether everything is watched for a worktree.
    pub fn forget(&mut self, worktree: &FilePath)
        ensures
            final(self).deep_view() == old(self).deep_view().forgotten(worktree.deep_view()),
            final(self).worktree_spellings() == old(self).worktree_spellings(),
            final(self).dir_spellings() == old(self).dir_spellings(),
    {
        proof {
            use_type_invariant(&*self);
        }
        let mut book = WatchBook::new();
        std::mem::swap(&mut book, self);
        let WatchBook { by_path, by_worktree, mut complete } = book;
        let _ = complete.remove(worktree);
        *self = WatchBook { by_path, by_worktree, complete };
    }
}

/// Once a directory is watched for a worktree, what happens below it concerns that worktree, and what
/// concerned a worktree before still does; a directory that could not be watched leaves its worktree
/// watched incompletely.
pub proof fn watched_directories_tell_of_events(
    book: WatchBookView,
    worktree: PathView,
    path: PathView,
    started: bool,
    event: PathView,
    other: PathView,
)
    ensures
        ({
            let after = book.added(worktree, path, started);
            let watched = book.by_path.contains_key(path) || started;
            &&& affected(event, after.by_path, other) <==> affected(event, book.by_path, other) || (
            watched && other == worktree && event.starts_with(path))
            &&& watched ==> after.is_complete(other) == book.is_complete(other)
            &&& !watched ==> !after.is_complete(worktree)
            &&& other != worktree ==> after.is_complete(other) == book.is_complete(other)
        }),
{
    let after = book.added(worktree, path, started);
    if affected(event, book.by_path, other) {
        let dir = choose|dir: PathView| #[trigger]
            book.by_path.contains_key(dir) && event.starts_with(dir) && book.by_path[dir].contains(
                other,
            );
        assert(after.by_path.contains_key(dir));
        assert(after.by_path[dir].contains(other));
    }
    if book.by_path.contains_key(path) || started {
        assert(after.by_path.contains_key(path));
        assert(after.by_path[path].contains(worktree));
        if affected(event, after.by_path, other) {
            let dir = choose|dir: PathView| #[trigger]
                after.by_path.contains_key(dir) && event.starts_with(dir)
                    && after.by_path[dir].contains(other);
            if dir != path {
                assert(book.by_path.contains_key(dir));
            } else if other != worktree {
                assert(book.by_path.contains_key(path));
                assert(book.by_path[path].contains(other));
            }
        }
    }
}

/// Once a worktree is detached, nothing concerns it any more, and what concerns other worktrees stays.
pub proof fn detached_worktrees_are_left_alone(
    book: WatchBookView,
    worktree: PathView,
    event: PathView,
    other: PathView,
)
    requires
        book.sound(),
    ensures
        !affected(event, book.detached(worktree).by_path, worktree),
        other != worktree ==> affected(event, book.detached(worktree).by_path, other) == affected(
            event,
            book.by_path,
            other,
        ),
{
    let after = book.detached(worktree).by_path;
    let paths = book.paths_of(worktree);
    if affected(event, after, worktree) {
        let dir = choose|dir: PathView| #[trigger]
            after.contains_key(dir) && event.starts_with(dir) && after[dir].contains(worktree);
        lemma_unwatched_all(book.by_path, paths, worktree, dir, worktree);
        assert(serves(after, dir, worktree));
        assert(lists(book.by_worktree, worktree, dir));
    }
    if other != worktree {
        if affected(event, after, other) {
            let dir = choose|dir: PathView| #[trigger]
                after.contains_key(dir) && event.starts_with(dir) && after[dir].contains(other);
            lemma_unwatched_all(book.by_path, paths, worktree, dir, other);
            assert(serves(after, dir, other));
            assert(book.by_path.contains_key(dir));
        }
        if affected(event, book.by_path, other) {
            let dir = choose|dir: PathView| #[trigger]
                book.by_path.contains_key(dir) && event.starts_with(dir)
                    && book.by_path[dir].contains(other);
            lemma_unwatched_all(book.by_path, paths, worktree, dir, other);
            assert(serves(book.by_path, dir, other));
            assert(serves(after, dir, other));
            assert(after.contains_key(dir));
        }
    }
}

/// Where a path changes, just those worktrees are named for which a directory above it is watched.
pub proof fn affected_worktrees_are_named(
    list: Seq<PathView>,
    event_path: PathView,
    by_path: Map<PathView, Set<PathView>>,
    worktree: PathView,
)
    requires
        names_affected(list, event_path, by_path),
        by_path.dom().finite(),
    ensures
        list.contains(worktree) <==> exists|dir: PathView| #[trigger]
            by_path.contains_key(dir) && event_path.starts_with(dir) && by_path[dir].contains(
                worktree,
            ),
{
    let dirs = holding(event_path, by_path, worktree);
    assert(list.to_multiset().count(worktree) == dirs.len());
    list.to_multiset_ensures();
    assert(dirs.subset_of(by_path.dom()));
    vstd::set_lib::lemma_set_subset_finite(by_path.dom(), dirs);
    if dirs.len() > 0 {
        let dir = dirs.choose();
        assert(dirs.contains(dir));
        assert(by_path.contains_key(dir));
    }
    if exists|dir: PathView| #[trigger]
        by_path.contains_key(dir) && event_path.starts_with(dir) && by_path[dir].contains(
            worktree,
        ) {
        let dir = choose|dir: PathView| #[trigger]
            by_path.contains_key(dir) && event_path.starts_with(dir) && by_path[dir].contains(
                worktree,
            );
        assert(dirs.contains(dir));
        if dirs.len() == 0 {
            assert(dirs =~= Set::empty());
        }
    }
}

} // verus!
