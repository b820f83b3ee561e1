//! What holds of a whole run of the worker that keeps pull requests and checks up to date.
use vstd::prelude::*;

use super::github_worker::{
    GithubAction, GithubEvent, GithubState, GithubWorkerPathView, GithubWorkerView,
    GITHUB_FETCH_INTERVAL,
};
use super::state::{CheckSummaryView, PrSummaryView};
use crate::paths::PathView;

verus! {

/// What the worker waits for.
pub enum Awaited {
    /// Directories, or time.
    News,
    /// The repositories of directories.
    Keys,
    /// What GitHub says, which was asked at a time. Until then `known` were the directories for
    /// which it was last decided whether to ask.
    Answer { asked: u64, known: Seq<GithubWorkerPathView> },
}

/// A request to GitHub that was answered.
pub struct Fetch {
    /// The directories that it was made for.
    pub entries: Seq<GithubWorkerPathView>,
    /// The directories for which it had last been decided whether to ask.
    pub known: Seq<GithubWorkerPathView>,
    pub asked: u64,
    pub ended: u64,
}

/// Where a run has come to.
#[verifier::ext_equal]
pub struct GithubRun {
    pub state: GithubState,
    pub awaited: Awaited,
    /// The requests, one after the other.
    pub fetches: Seq<Fetch>,
}

/// A step of the worker, with what its host says and what the worker says to it.
pub struct GithubStep {
    pub event: GithubEvent,
    pub now: u64,
    pub action: GithubAction,
}

impl GithubRun {
    /// A run as it begins.
    pub open spec fn fresh(
        now: u64,
        prs: Map<PathView, Map<Seq<char>, PrSummaryView>>,
        checks: Map<PathView, Map<Seq<char>, CheckSummaryView>>,
    ) -> GithubRun {
        GithubRun {
            state: GithubState {
                worker: GithubWorkerView::fresh(now, prs, checks),
                prs: Map::empty(),
                checks: Map::empty(),
            },
            awaited: Awaited::News,
            fetches: Seq::empty(),
        }
    }

    /// Whether the host says what is awaited.
    pub open spec fn expects(self, event: GithubEvent) -> bool {
        match event {
            GithubEvent::Entries(_) => self.awaited is News,
            GithubEvent::Quiet => self.awaited is News,
            GithubEvent::Keys(_) => self.awaited is Keys,
            GithubEvent::Fetched(_) => self.awaited is Answer,
        }
    }

    /// Whether a step leads to another place of the run.
    pub open spec fn moves(self, step: GithubStep, after: GithubRun) -> bool {
        &&& self.expects(step.event)
        &&& self.state.steps(step.event, step.now, step.action, after.state)
        &&& after.awaited == (match step.action {
            GithubAction::Wait => Awaited::News,
            GithubAction::FindKeys(_) => Awaited::Keys,
            GithubAction::Fetch(_) => Awaited::Answer {
                asked: step.now,
                known: self.state.worker.last_key,
            },
        })
        &&& after.fetches == (match self.awaited {
            Awaited::Answer { asked, known } => self.fetches.push(
                Fetch {
                    entries: self.state.worker.active_entries,
                    known,
                    asked,
                    ended: step.now,
                },
            ),
            _ => self.fetches,
        })
    }
}

/// Whether these are the places of a run, from its beginning on, with the steps between them.
pub open spec fn is_github_run(
    places: Seq<GithubRun>,
    steps: Seq<GithubStep>,
    now: u64,
    prs: Map<PathView, Map<Seq<char>, PrSummaryView>>,
    checks: Map<PathView, Map<Seq<char>, CheckSummaryView>>,
) -> bool {
    &&& places.len() == steps.len() + 1
    &&& places[0] == GithubRun::fresh(now, prs, checks)
    &&& forall|i: int| 0 <= i < steps.len() ==> places[i].moves(#[trigger] steps[i], places[i + 1])
}

/// Whether a request was in order: it was for other directories than were known, or the last one had
/// ended long enough before.
pub open spec fn is_in_order(earlier: Seq<Fetch>, fetch: Fetch) -> bool {
    fetch.entries != fetch.known || earlier.len() == 0 || earlier.last().ended
        + GITHUB_FETCH_INTERVAL <= fetch.asked
}

spec fn run_stands(run: GithubRun) -> bool {
    let worker = run.state.worker;
    &&& !(run.awaited is Keys) ==> run.state.publishes_what_is_known()
    &&& run.fetches.len() > 0 ==> worker.last_fetch == run.fetches.last().ended
    &&& forall|i: int|
        0 <= i < run.fetches.len() ==> is_in_order(run.fetches.take(i), #[trigger] run.fetches[i])
    &&& run.awaited matches Awaited::Answer { asked, known } ==> is_in_order(
        run.fetches,
        Fetch { entries: worker.active_entries, known, asked, ended: asked },
    )
}

proof fn lemma_step_stands(before: GithubRun, step: GithubStep, after: GithubRun)
    requires
        run_stands(before),
        before.moves(step, after),
    ensures
        run_stands(after),
{
    assert forall|i: int| 0 <= i < after.fetches.len() implies is_in_order(
        after.fetches.take(i),
        #[trigger] after.fetches[i],
    ) by {
        if i < before.fetches.len() {
            assert(after.fetches.take(i) =~= before.fetches.take(i));
            assert(after.fetches[i] == before.fetches[i]);
        } else {
            assert(after.fetches.take(i) =~= before.fetches);
        }
    }
    match step.event {
        GithubEvent::Entries(entries) => {
            if entries@.len() == 0 {
                let kept = after.state.worker.active_entries;
                if kept.len() > 0 {
                    assert(kept.to_set().contains(kept[0]));
                    assert(entries.deep_view().to_set().contains(kept[0]));
                }
            }
        },
        _ => {},
    }
}

proof fn lemma_run_stands(
    places: Seq<GithubRun>,
    steps: Seq<GithubStep>,
    now: u64,
    prs: Map<PathView, Map<Seq<char>, PrSummaryView>>,
    checks: Map<PathView, Map<Seq<char>, CheckSummaryView>>,
    n: int,
)
    requires
        is_github_run(places, steps, now, prs, checks),
        0 <= n < places.len(),
    ensures
        run_stands(places[n]),
    decreases n,
{
    if n > 0 {
        lemma_run_stands(places, steps, now, prs, checks, n - 1);
        assert(places[n - 1].moves(steps[n - 1], places[n - 1 + 1]));
        lemma_step_stands(places[n - 1], steps[n - 1], places[n]);
    }
}

/// Wherever a run has come to, just that is published which is known of the branches that agents
/// work on, but for the moment in which the repositories of other directories are found.
pub proof fn what_is_known_is_published(
    places: Seq<GithubRun>,
    steps: Seq<GithubStep>,
    now: u64,
    prs: Map<PathView, Map<Seq<char>, PrSummaryView>>,
    checks: Map<PathView, Map<Seq<char>, CheckSummaryView>>,
    n: int,
)
    requires
        is_github_run(places, steps, now, prs, checks),
        0 <= n < places.len(),
        !(places[n].awaited is Keys),
    ensures
        places[n].state.publishes_what_is_known(),
{
    lemma_run_stands(places, steps, now, prs, checks, n);
}

/// Wherever a run has come to, each request to GitHub was made for other directories or branches
/// than had been decided on last, or when the interval between two requests had passed since the
/// last one was answered.
pub proof fn requests_are_throttled(
    places: Seq<GithubRun>,
    steps: Seq<GithubStep>,
    now: u64,
    prs: Map<PathView, Map<Seq<char>, PrSummaryView>>,
    checks: Map<PathView, Map<Seq<char>, CheckSummaryView>>,
    n: int,
    i: int,
)
    requires
        is_github_run(places, steps, now, prs, checks),
        0 <= n < places.len(),
        0 < i < places[n].fetches.len(),
    ensures
        ({
            let fetch = places[n].fetches[i];
            let earlier = places[n].fetches[i - 1];
            fetch.entries != fetch.known || earlier.ended + GITHUB_FETCH_INTERVAL <= fetch.asked
        }),
{
    lemma_run_stands(places, steps, now, prs, checks, n);
    let fetches = places[n].fetches;
    assert(is_in_order(fetches.take(i), fetches[i]));
    assert(fetches.take(i).last() == fetches[i - 1]);
}

} // verus!
