//! When two states of the sidebar look the same.
use vstd::prelude::*;

use super::state::{GitStatus, GitStatusView, SidebarSnapshot, SidebarSnapshotView};
use crate::paths::{FilePath, PathView};
use crate::tables::Table;
use crate::values::Value;

verus! {

/// Compares what the sidebar shows of two Git states: everything but the time when each was found
/// out.
pub fn git_status_semantically_equal(a: &GitStatus, b: &GitStatus) -> (equal: bool)
    ensures
        equal == (a.deep_view().lasting() == b.deep_view().lasting()),
{
    a.ahead == b.ahead && a.behind == b.behind && a.has_conflict == b.has_conflict && a.is_dirty
        == b.is_dirty && a.lines_added == b.lines_added && a.lines_removed == b.lines_removed
        && a.uncommitted_added == b.uncommitted_added && a.uncommitted_removed
        == b.uncommitted_removed && a.base_branch.same(&b.base_branch) && a.branch.same(&b.branch)
        && a.has_upstream == b.has_upstream && a.is_rebasing == b.is_rebasing
}

/// Git states without the times when they were found out.
pub open spec fn lasting_map(statuses: Map<PathView, GitStatusView>) -> Map<
    PathView,
    GitStatusView,
> {
    statuses.map_values(|status: GitStatusView| status.lasting())
}

/// Compares what the sidebar shows of the Git states of paths.
pub fn git_status_maps_equal(
    left: &Table<FilePath, GitStatus>,
    right: &Table<FilePath, GitStatus>,
) -> (equal: bool)
    ensures
        equal == (lasting_map(left.deep_view()) == lasting_map(right.deep_view())),
{
    let ghost a = lasting_map(left.deep_view());
    let ghost b = lasting_map(right.deep_view());
    let count: usize = left.len();
    for i in 0..count
        invariant
            count == left.pairs().len(),
            crate::tables::distinct_keys(left.pairs()),
            a == lasting_map(left.deep_view()),
            b == lasting_map(right.deep_view()),
            forall|j: int|
                0 <= j < i ==> {
                    let pair = #[trigger] left.pairs()[j];
                    b.contains_pair(pair.0, pair.1.lasting())
                },
    {
        let ghost pair = left.pairs()[i as int];
        proof {
            crate::tables::lemma_pair_found(left.pairs(), i as int);
            assert(a.contains_pair(pair.0, pair.1.lasting()));
        }
        match right.get(left.key_at(i)) {
            Some(other) => {
                if !git_status_semantically_equal(left.value_at(i), other) {
                    assert(b[pair.0] != a[pair.0]);
                    return false;
                }
            },
            None => {
                assert(!b.contains_key(pair.0));
                return false;
            },
        }
    }
    let others: usize = right.len();
    for i in 0..others
        invariant
            others == right.pairs().len(),
            a == lasting_map(left.deep_view()),
            b == lasting_map(right.deep_view()),
            forall|j: int| 0 <= j < i ==> a.contains_key((#[trigger] right.pairs()[j]).0),
    {
        if !left.contains_key(right.key_at(i)) {
            assert(b.contains_key(right.pairs()[i as int].0));
            return false;
        }
    }
    proof {
        assert forall|k: PathView| #[trigger] a.contains_key(k) implies b.contains_key(k) && a[k]
            == b[k] by {
            let j = choose|j: int|
                0 <= j < left.pairs().len() && (#[trigger] left.pairs()[j]).0 == k;
            crate::tables::lemma_pair_found(left.pairs(), j);
        }
        assert forall|k: PathView| #[trigger] b.contains_key(k) implies a.contains_key(k) by {
            let j = choose|j: int|
                0 <= j < right.pairs().len() && (#[trigger] right.pairs()[j]).0 == k;
            assert(right.pairs()[j].0 == k);
        }
        assert(a =~= b);
    }
    true
}

/// What the sidebar shows of a snapshot: everything but the times when Git states were found out.
pub open spec fn visible(snapshot: SidebarSnapshotView) -> SidebarSnapshotView {
    SidebarSnapshotView { git_statuses: lasting_map(snapshot.git_statuses), ..snapshot }
}

/// Compares what the sidebar shows of two snapshots.
pub fn snapshots_equal(left: &SidebarSnapshot, right: &SidebarSnapshot) -> (equal: bool)
    ensures
        equal == (visible(left.deep_view()) == visible(right.deep_view())),
{
    left.position == right.position && left.layout_mode == right.layout_mode
        && left.filter_mode.same(&right.filter_mode) && left.active_windows.same(
        &right.active_windows,
    ) && left.active_pane_ids.same(&right.active_pane_ids) && left.window_pane_counts.same(
        &right.window_pane_counts,
    ) && git_status_maps_equal(&left.git_statuses, &right.git_statuses) && left.pr_statuses.same(
        &right.pr_statuses,
    ) && left.check_statuses.same(&right.check_statuses) && left.interrupted_pane_ids.same(
        &right.interrupted_pane_ids,
    ) && left.sleeping_pane_ids.same(&right.sleeping_pane_ids) && left.agents.same(&right.agents)
        && left.config_version == right.config_version
}

/// Two Git states look the same if and only if they agree in all that Git says of a worktree; when they
/// were found out does not count.
pub proof fn states_look_the_same(a: GitStatusView, b: GitStatusView)
    ensures
        a.lasting() == b.lasting() <==> {
            &&& a.ahead == b.ahead
            &&& a.behind == b.behind
            &&& a.has_conflict == b.has_conflict
            &&& a.is_dirty == b.is_dirty
            &&& a.lines_added == b.lines_added
            &&& a.lines_removed == b.lines_removed
            &&& a.uncommitted_added == b.uncommitted_added
            &&& a.uncommitted_removed == b.uncommitted_removed
            &&& a.base_branch == b.base_branch
            &&& a.branch == b.branch
            &&& a.has_upstream == b.has_upstream
            &&& a.is_rebasing == b.is_rebasing
        },
{
}

/// Two snapshots look the same if and only if they agree in everything but the times when Git states were
/// found out: the same paths have Git states, and these look the same.
pub proof fn snapshots_look_the_same(a: SidebarSnapshotView, b: SidebarSnapshotView)
    ensures
        visible(a) == visible(b) <==> {
            &&& a.position == b.position
            &&& a.layout_mode == b.layout_mode
            &&& a.filter_mode == b.filter_mode
            &&& a.active_windows == b.active_windows
            &&& a.active_pane_ids == b.active_pane_ids
            &&& a.window_pane_counts == b.window_pane_counts
            &&& a.git_statuses.dom() == b.git_statuses.dom()
            &&& forall|path: PathView| #[trigger]
                a.git_statuses.contains_key(path) ==> a.git_statuses[path].lasting()
                    == b.git_statuses[path].lasting()
            &&& a.pr_statuses == b.pr_statuses
            &&& a.check_statuses == b.check_statuses
            &&& a.interrupted_pane_ids == b.interrupted_pane_ids
            &&& a.sleeping_pane_ids == b.sleeping_pane_ids
            &&& a.agents == b.agents
            &&& a.config_version == b.config_version
        },
{
    let left = lasting_map(a.git_statuses);
    let right = lasting_map(b.git_statuses);
    if left == right {
        assert forall|path: PathView| #[trigger] a.git_statuses.contains_key(path) implies {
            &&& b.git_statuses.contains_key(path)
            &&& a.git_statuses[path].lasting() == b.git_statuses[path].lasting()
        } by {
            assert(left.contains_key(path));
            assert(right.contains_key(path));
            assert(left[path] == right[path]);
        }
        assert forall|path: PathView| #[trigger] b.git_statuses.contains_key(path) implies
            a.git_statuses.contains_key(path) by {
            assert(right.contains_key(path));
            assert(left.contains_key(path));
        }
        assert(a.git_statuses.dom() =~= b.git_statuses.dom());
    }
    if a.git_statuses.dom() == b.git_statuses.dom() && (forall|path: PathView| #[trigger]
        a.git_statuses.contains_key(path) ==> a.git_statuses[path].lasting()
            == b.git_statuses[path].lasting()) {
        assert forall|path: PathView| left.contains_key(path) == #[trigger] right.contains_key(
            path,
        ) && (left.contains_key(path) ==> left[path] == right[path]) by {
            assert(a.git_statuses.dom().contains(path) == b.git_statuses.dom().contains(path));
            assert(a.git_statuses.contains_key(path) == a.git_statuses.dom().contains(path));
        }
        assert(left =~= right);
    }
}

} // verus!
