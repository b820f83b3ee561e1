//! When worktrees are looked at.
use vstd::prelude::*;

use super::clock::{elapsed, MILLISECOND, SECOND};
use crate::paths::{FilePath, PathView};
use crate::tables::Table;
use crate::values::Value;

verus! {

/// The time since which a worktree waits, if it is to wait from a time on or waits already.
pub open spec fn waiting_since(pending: Map<PathView, u64>, worktree: PathView, at: u64) -> u64 {
    if pending.contains_key(worktree) {
        pending[worktree]
    } else {
        at
    }
}

/// What waits, once some worktrees wait from a time on. One that waits already waits as before.
pub open spec fn marked(
    pending: Map<PathView, u64>,
    which: Set<PathView>,
    at: u64,
) -> Map<PathView, u64> {
    Map::new(
        |worktree: PathView| pending.contains_key(worktree) || which.contains(worktree),
        |worktree: PathView| waiting_since(pending, worktree, at),
    )
}

/// What waits, once some worktrees wait from a time on, whether they wait already or not.
pub open spec fn reset(
    pending: Map<PathView, u64>,
    which: Set<PathView>,
    at: u64,
) -> Map<PathView, u64> {
    pending.union_prefer_right(Map::new(|worktree: PathView| which.contains(worktree), |worktree: PathView| at))
}

/// Of the events on a worktree that waits, the first counts.
pub proof fn first_event_counts(
    pending: Map<PathView, u64>,
    which: Set<PathView>,
    at: u64,
    worktree: PathView,
)
    requires
        pending.contains_key(worktree),
    ensures
        marked(pending, which, at).contains_pair(worktree, pending[worktree]),
{
}

pub(crate) fn mark(pending: &mut Table<FilePath, u64>, worktree: &FilePath, at: u64)
    ensures
        final(pending).deep_view() == marked(
            old(pending).deep_view(),
            set![worktree.deep_view()],
            at,
        ),
        crate::paths::spellings(final(pending).keys()) <= crate::paths::spellings(
            old(pending).keys(),
        ).insert(worktree.spelled()),
{
    let ghost held = pending.deep_view();
    if !pending.contains_key(worktree) {
        pending.insert(worktree.dup(), at);
    }
    assert(pending.deep_view() =~= marked(held, set![worktree.deep_view()], at));
}

pub(crate) fn mark_all(pending: &mut Table<FilePath, u64>, worktrees: &Vec<FilePath>, at: u64)
    ensures
        final(pending).deep_view() == marked(
            old(pending).deep_view(),
            worktrees.deep_view().to_set(),
            at,
        ),
        crate::paths::spellings(final(pending).keys()) <= crate::paths::spellings(
            old(pending).keys(),
        ).union(crate::paths::spellings_of(worktrees@)),
{
    let ghost names = crate::paths::spellings(pending.keys()).union(
        crate::paths::spellings_of(worktrees@),
    );
    let ghost before = pending.deep_view();
    let ghost all = worktrees.deep_view();
    assert(before =~= marked(before, all.take(0).to_set(), at));
    for i in 0..worktrees.len()
        invariant
            all == worktrees.deep_view(),
            pending.deep_view() == marked(before, all.take(i as int).to_set(), at),
            crate::paths::spellings_of(worktrees@) <= names,
            crate::paths::spellings(pending.keys()) <= names,
    {
        assert(crate::paths::spellings_of(worktrees@).contains(worktrees@[i as int].spelled()));
        mark(pending, &worktrees[i], at);
        proof {
            lemma_take_set(all, i as int);
            assert(pending.deep_view() =~= marked(before, all.take(i + 1).to_set(), at));
        }
    }
    assert(all.take(all.len() as int) =~= all);
}

pub(crate) fn reset_all(pending: &mut Table<FilePath, u64>, worktrees: &Vec<FilePath>, at: u64)
    ensures
        final(pending).deep_view() == reset(
            old(pending).deep_view(),
            worktrees.deep_view().to_set(),
            at,
        ),
        crate::paths::spellings(final(pending).keys()) <= crate::paths::spellings(
            old(pending).keys(),
        ).union(crate::paths::spellings_of(worktrees@)),
{
    let ghost names = crate::paths::spellings(pending.keys()).union(
        crate::paths::spellings_of(worktrees@),
    );
    let ghost before = pending.deep_view();
    let ghost all = worktrees.deep_view();
    assert(before =~= reset(before, all.take(0).to_set(), at));
    for i in 0..worktrees.len()
        invariant
            all == worktrees.deep_view(),
            pending.deep_view() == reset(before, all.take(i as int).to_set(), at),
            crate::paths::spellings_of(worktrees@) <= names,
            crate::paths::spellings(pending.keys()) <= names,
    {
        assert(crate::paths::spellings_of(worktrees@).contains(worktrees@[i as int].spelled()));
        pending.insert(worktrees[i].dup(), at);
        proof {
            lemma_take_set(all, i as int);
            assert(pending.deep_view() =~= reset(before, all.take(i + 1).to_set(), at));
        }
    }
    assert(all.take(all.len() as int) =~= all);
}

pub(crate) proof fn lemma_take_set<A>(all: Seq<A>, i: int)
    requires
        0 <= i < all.len(),
    ensures
        all.take(i + 1).to_set() == all.take(i).to_set().insert(all[i]),
{
    let short = all.take(i);
    let long = all.take(i + 1);
    crate::lists::lemma_take_next(all, i);
    assert forall|a: A| #[trigger] long.to_set().contains(a) == (short.to_set().contains(a) || a
        == all[i]) by {
        assert(long.contains(a) == (short.contains(a) || a == all[i]));
    }
    assert(long.to_set() =~= short.to_set().insert(all[i]));
}

/// Whether a worktree has waited long enough.
pub open spec fn is_ready(pending: Map<PathView, u64>, worktree: PathView, debounce: u64, now: u64) -> bool {
    pending[worktree] + debounce <= now
}

/// Whether some worktree has waited long enough.
pub open spec fn any_ready(pending: Map<PathView, u64>, debounce: u64, now: u64) -> bool {
    exists|worktree: PathView| #[trigger]
        pending.contains_key(worktree) && is_ready(pending, worktree, debounce, now)
}

/// Whether a time ends as soon as something has to be done: when a worktree has waited long enough,
/// and at most in a second. Where one has waited long enough it is a millisecond.
pub open spec fn ends_in_time(
    pending: Map<PathView, u64>,
    debounce: u64,
    now: u64,
    timeout: u64,
) -> bool {
    if any_ready(pending, debounce, now) {
        timeout == MILLISECOND
    } else {
        &&& timeout <= SECOND
        &&& forall|worktree: PathView| #[trigger]
            pending.contains_key(worktree) ==> timeout <= pending[worktree] + debounce - now
        &&& timeout == SECOND || exists|worktree: PathView| #[trigger]
            pending.contains_key(worktree) && timeout == pending[worktree] + debounce - now
    }
}

/// How long nothing has to be done, in nanoseconds.
pub fn next_worker_timeout(pending: &Table<FilePath, u64>, debounce: u64, now: u64) -> (timeout: u64)
    ensures
        ends_in_time(pending.deep_view(), debounce, now, timeout),
{
    let ghost waiting = pending.deep_view();
    let ghost pairs = pending.pairs();
    let mut min_wait: u64 = SECOND;
    let count: usize = pending.len();
    for i in 0..count
        invariant
            count == pairs.len(),
            pairs == pending.pairs(),
            waiting == pending.deep_view(),
            crate::tables::distinct_keys(pairs),
            min_wait <= SECOND,
            forall|j: int|
                0 <= j < i ==> (#[trigger] pairs[j]).1 + debounce > now && min_wait <= pairs[j].1
                    + debounce - now,
            min_wait == SECOND || exists|worktree: PathView| #[trigger]
                waiting.contains_key(worktree) && min_wait == waiting[worktree] + debounce - now,
    {
        let event_at: u64 = *pending.value_at(i);
        proof {
            crate::tables::lemma_pair_found(pairs, i as int);
            assert(waiting.contains_key(pairs[i as int].0));
        }
        if event_at <= now && now - event_at >= debounce {
            assert(is_ready(waiting, pairs[i as int].0, debounce, now));
            assert(any_ready(waiting, debounce, now));
            return MILLISECOND;
        }
        let wait: u64 = if event_at <= now {
            debounce - (now - event_at)
        } else if event_at - now > SECOND || debounce > SECOND {
            SECOND
        } else {
            event_at - now + debounce
        };
        if wait < min_wait {
            min_wait = wait;
        }
    }
    proof {
        assert forall|worktree: PathView| #[trigger] waiting.contains_key(worktree) implies !is_ready(
            waiting,
            worktree,
            debounce,
            now,
        ) && min_wait <= waiting[worktree] + debounce - now by {
            let j = choose|j: int| 0 <= j < pairs.len() && (#[trigger] pairs[j]).0 == worktree;
            crate::tables::lemma_pair_found(pairs, j);
        }
    }
    min_wait
}

/// Whether a recovery is due and the last one is long enough past.
pub fn recovery_ready(due: bool, last_recovery: u64, cooldown: u64, now: u64) -> (ready: bool)
    ensures
        ready == (due && super::clock::passed(now, last_recovery) >= cooldown),
{
    due && elapsed(now, last_recovery) >= cooldown
}

/// The place of the next worktree that is watched completely, from a place on and round once.
pub open spec fn next_place(complete: Seq<bool>, start: int, skipped: int) -> Option<int>
    decreases complete.len() - skipped,
{
    if complete.len() == 0 || skipped >= complete.len() {
        None
    } else {
        let at = (start + skipped) % (complete.len() as int);
        if complete[at] {
            Some(at)
        } else {
            next_place(complete, start, skipped + 1)
        }
    }
}

/// Where the next audit begins.
pub open spec fn next_cursor(complete: Seq<bool>, cursor: int) -> int {
    if complete.len() == 0 {
        cursor
    } else {
        match next_place(complete, cursor % (complete.len() as int), 0) {
            Some(at) => (at + 1) % (complete.len() as int),
            None => cursor % (complete.len() as int),
        }
    }
}

/// Which of some worktrees are watched completely.
pub open spec fn completeness(paths: Seq<PathView>, complete: Map<PathView, bool>) -> Seq<bool> {
    paths.map_values(|path: PathView| complete.contains_key(path) && complete[path])
}

/// The next worktree to audit: worktrees take turns, and those that are not watched completely are
/// passed over, for they are polled.
pub fn next_audit_path(
    paths: &Vec<FilePath>,
    watch_complete: &Table<FilePath, bool>,
    cursor: &mut usize,
) -> (path: Option<FilePath>)
    ensures
        ({
            let complete = completeness(paths.deep_view(), watch_complete.deep_view());
            &&& *final(cursor) == next_cursor(complete, *old(cursor) as int)
            &&& match path {
                Some(path) => {
                    &&& paths@.len() > 0
                    &&& next_place(
                        complete,
                        *old(cursor) as int % (paths@.len() as int),
                        0,
                    ) matches Some(at)
                    &&& 0 <= at < paths@.len()
                    &&& paths.deep_view()[at] == path.deep_view()
                },
                None => paths@.len() == 0 || next_place(
                    complete,
                    *old(cursor) as int % (paths@.len() as int),
                    0,
                ) is None,
            }
        }),
        path matches Some(path) ==> crate::paths::spellings_of(paths@).contains(path.spelled()),
{
    let count: usize = paths.len();
    if count == 0 {
        return None;
    }
    let ghost complete = completeness(paths.deep_view(), watch_complete.deep_view());
    let start: usize = *cursor % count;
    *cursor = start;
    let mut skipped: usize = 0;
    let mut at: usize = start;
    proof {
        vstd::arithmetic::div_mod::lemma_small_mod(start as nat, count as nat);
    }
    while skipped < count
        invariant
            count == paths@.len(),
            count > 0,
            complete == completeness(paths.deep_view(), watch_complete.deep_view()),
            start < count,
            skipped <= count,
            at == (start + skipped) % (count as int),
            at < count,
            *cursor == at,
            next_place(complete, start as int, 0) == next_place(
                complete,
                start as int,
                skipped as int,
            ),
            start == *old(cursor) as int % (count as int),
        decreases count - skipped,
    {
        let here: usize = at;
        let next: usize = if at + 1 == count {
            0
        } else {
            at + 1
        };
        assert(next == (at + 1) % (count as int) && next == (start + skipped + 1) % (count as int))
            by {
            lemma_step(start as int, skipped as int, count as int);
        }
        *cursor = next;
        at = next;
        skipped = skipped + 1;
        let watched = match watch_complete.get(&paths[here]) {
            Some(complete) => *complete,
            None => false,
        };
        assert(complete[here as int] == watched);
        if watched {
            assert(crate::paths::spellings_of(paths@).contains(paths@[here as int].spelled()));
            return Some(paths[here].dup());
        }
    }
    assert((start + count) % (count as int) == start) by {
        vstd::arithmetic::div_mod::lemma_mod_add_multiples_vanish(start as int, count as int);
        vstd::arithmetic::div_mod::lemma_small_mod(start as nat, count as nat);
    }
    None
}

proof fn lemma_step(start: int, skipped: int, count: int)
    requires
        count > 0,
        start >= 0,
        skipped >= 0,
    ensures
        ({
            let at = (start + skipped) % count;
            let next = (start + skipped + 1) % count;
            &&& 0 <= at < count
            &&& next == (at + 1) % count
            &&& next == (if at + 1 == count { 0 } else { at + 1 })
        }),
{
    let sum = start + skipped;
    vstd::arithmetic::div_mod::lemma_mod_bound(sum, count);
    vstd::arithmetic::div_mod::lemma_add_mod_noop(sum, 1, count);
    vstd::arithmetic::div_mod::lemma_add_mod_noop(sum % count, 1, count);
    vstd::arithmetic::div_mod::lemma_mod_twice(sum, count);
    let at = sum % count;
    if at + 1 == count {
        vstd::arithmetic::div_mod::lemma_mod_self_0(count);
    } else {
        vstd::arithmetic::div_mod::lemma_small_mod((at + 1) as nat, count as nat);
    }
}

/// The places that are audited in some turns, one after the other.
pub open spec fn audits(complete: Seq<bool>, cursor: int, turns: nat) -> Seq<int>
    decreases turns,
{
    if turns == 0 || complete.len() == 0 {
        Seq::empty()
    } else {
        match next_place(complete, cursor % (complete.len() as int), 0) {
            Some(at) => seq![at] + audits(
                complete,
                next_cursor(complete, cursor),
                (turns - 1) as nat,
            ),
            None => Seq::empty(),
        }
    }
}

/// The places of the worktrees that are watched completely.
pub open spec fn auditable(complete: Seq<bool>) -> Set<int> {
    Set::new(|place: int| 0 <= place < complete.len() && complete[place])
}

/// The place that is some steps behind another, round a number of places.
spec fn around(start: int, steps: int, count: int) -> int {
    if start + steps < count {
        start + steps
    } else {
        start + steps - count
    }
}

/// The places that are watched completely, from a place on, with some steps left out, and round
/// once.
spec fn round_from(complete: Seq<bool>, start: int, skipped: int) -> Seq<int>
    decreases complete.len() - skipped,
{
    if skipped >= complete.len() {
        Seq::empty()
    } else {
        let at = around(start, skipped, complete.len() as int);
        let rest = round_from(complete, start, skipped + 1);
        if complete[at] {
            seq![at] + rest
        } else {
            rest
        }
    }
}

proof fn lemma_around(start: int, steps: int, count: int)
    requires
        0 <= start < count,
        0 <= steps <= count,
    ensures
        (start + steps) % count == around(start, steps, count),
        0 <= around(start, steps, count) < count,
        around(around(start, steps, count), 1, count) == (if steps < count {
            around(start, steps + 1, count)
        } else {
            around(start, 1, count)
        }),
{
    if start + steps < count {
        vstd::arithmetic::div_mod::lemma_small_mod((start + steps) as nat, count as nat);
    } else {
        let left = start + steps - count;
        vstd::arithmetic::div_mod::lemma_mod_add_multiples_vanish(left, count);
        vstd::arithmetic::div_mod::lemma_small_mod(left as nat, count as nat);
    }
}

/// Where a place is not audited, the audit that begins there begins as well behind it.
proof fn lemma_next_place_skips(complete: Seq<bool>, start: int, skipped: int)
    requires
        0 <= start < complete.len(),
        !complete[start],
        0 <= skipped < complete.len(),
    ensures
        next_place(complete, start, skipped + 1) == next_place(
            complete,
            around(start, 1, complete.len() as int),
            skipped,
        ),
    decreases complete.len() - skipped,
{
    let count = complete.len() as int;
    let next = around(start, 1, count);
    lemma_around(start, 1, count);
    lemma_around(start, skipped + 1, count);
    lemma_around(next, skipped, count);
    assert(around(next, skipped, count) == around(start, skipped + 1, count));
    if skipped + 1 < count {
        lemma_next_place_skips(complete, start, skipped + 1);
    } else {
        assert(around(next, skipped, count) == start);
        assert(next_place(complete, next, skipped + 1) is None);
    }
}

proof fn lemma_audits_skip(complete: Seq<bool>, start: int, turns: nat)
    requires
        0 <= start < complete.len(),
        !complete[start],
    ensures
        audits(complete, start, turns) == audits(
            complete,
            around(start, 1, complete.len() as int),
            turns,
        ),
{
    let count = complete.len() as int;
    let next = around(start, 1, count);
    lemma_around(start, 0, count);
    lemma_around(start, 1, count);
    lemma_around(next, 0, count);
    lemma_next_place_skips(complete, start, 0);
    assert(next_place(complete, start, 0) == next_place(complete, start, 1));
    assert(next_place(complete, start, 0) == next_place(complete, next, 0));
    if next_place(complete, start, 0) is Some {
        assert(next_cursor(complete, start) == next_cursor(complete, next));
    }
}

/// From somewhere in a round on, the audit goes through the rest of the round and begins anew.
proof fn lemma_audits_round(complete: Seq<bool>, start: int, skipped: int, turns: nat)
    requires
        0 <= start < complete.len(),
        0 <= skipped <= complete.len(),
    ensures
        ({
            let here = around(start, skipped, complete.len() as int);
            let round = round_from(complete, start, skipped);
            audits(complete, here, round.len() + turns) == round + audits(complete, start, turns)
        }),
    decreases complete.len() - skipped,
{
    let count = complete.len() as int;
    let here = around(start, skipped, count);
    let round = round_from(complete, start, skipped);
    lemma_around(start, skipped, count);
    lemma_around(here, 0, count);
    if skipped == count {
        assert(round + audits(complete, start, turns) =~= audits(complete, start, turns));
    } else {
        let rest = round_from(complete, start, skipped + 1);
        let next = around(here, 1, count);
        lemma_around(here, 1, count);
        assert(next == around(start, skipped + 1, count));
        lemma_audits_round(complete, start, skipped + 1, turns);
        if complete[here] {
            assert(round == seq![here] + rest);
            assert(next_place(complete, here, 0) == Some(here));
            assert(next_cursor(complete, here) == next);
            assert((round.len() + turns - 1) as nat == rest.len() + turns);
            assert(audits(complete, here, round.len() + turns) == seq![here] + audits(
                complete,
                next,
                rest.len() + turns,
            ));
            assert(seq![here] + (rest + audits(complete, start, turns)) =~= round + audits(
                complete,
                start,
                turns,
            ));
        } else {
            lemma_audits_skip(complete, here, round.len() + turns);
        }
    }
}

proof fn lemma_round_places(complete: Seq<bool>, start: int, skipped: int)
    requires
        0 <= start < complete.len(),
        0 <= skipped <= complete.len(),
    ensures
        round_from(complete, start, skipped).no_duplicates(),
        forall|place: int| #[trigger]
            round_from(complete, start, skipped).contains(place) ==> auditable(complete).contains(
                place,
            ) && exists|steps: int|
                skipped <= steps < complete.len() && place == #[trigger] around(
                    start,
                    steps,
                    complete.len() as int,
                ),
        forall|steps: int|
            skipped <= steps < complete.len() && complete[#[trigger] around(
                start,
                steps,
                complete.len() as int,
            )] ==> round_from(complete, start, skipped).contains(
                around(start, steps, complete.len() as int),
            ),
    decreases complete.len() - skipped,
{
    let count = complete.len() as int;
    let round = round_from(complete, start, skipped);
    if skipped < count {
        let at = around(start, skipped, count);
        let rest = round_from(complete, start, skipped + 1);
        lemma_around(start, skipped, count);
        lemma_round_places(complete, start, skipped + 1);
        if complete[at] {
            assert(round == seq![at] + rest);
            assert(!rest.contains(at));
            assert forall|place: int| #[trigger] round.contains(place) == (place == at
                || rest.contains(place)) by {
                if round.contains(place) {
                    let n = choose|n: int| 0 <= n < round.len() && round[n] == place;
                    if n > 0 {
                        assert(rest[n - 1] == place);
                    }
                }
                if rest.contains(place) {
                    let n = choose|n: int| 0 <= n < rest.len() && rest[n] == place;
                    assert(round[n + 1] == place);
                }
                assert(round[0] == at);
            }
            assert forall|i: int, j: int|
                0 <= i < round.len() && 0 <= j < round.len() && i != j implies round[i]
                != round[j] by {
                if i > 0 {
                    assert(round[i] == rest[i - 1]);
                    assert(rest.contains(rest[i - 1]));
                }
                if j > 0 {
                    assert(round[j] == rest[j - 1]);
                    assert(rest.contains(rest[j - 1]));
                }
            }
        }
    }
}

/// The audit is fair: from wherever it begins, it goes in rounds. In a round every worktree that is
/// watched completely has one turn, and behind the round the turns are in the same order again.
pub proof fn audit_is_fair(complete: Seq<bool>, cursor: int, turns: nat)
    requires
        cursor >= 0,
    ensures
        ({
            let round = audits(complete, cursor, auditable(complete).len());
            &&& round.no_duplicates()
            &&& round.to_set() == auditable(complete)
            &&& audits(complete, cursor, auditable(complete).len() + turns) == round + audits(
                complete,
                cursor,
                turns,
            )
        }),
{
    let places = auditable(complete);
    let count = complete.len() as int;
    if count == 0 {
        assert(places =~= Set::empty());
        assert(audits(complete, cursor, places.len()).to_set() =~= places);
    } else {
        let start = cursor % count;
        vstd::arithmetic::div_mod::lemma_mod_bound(cursor, count);
        vstd::arithmetic::div_mod::lemma_mod_twice(cursor, count);
        assert forall|n: nat| #[trigger] audits(complete, cursor, n) == audits(
            complete,
            start,
            n,
        ) by {
            assert(next_cursor(complete, cursor) == next_cursor(complete, start));
        }
        let round = round_from(complete, start, 0);
        lemma_round_places(complete, start, 0);
        assert forall|place: int| #[trigger] places.contains(place) implies round.contains(place) by {
            let steps = if place >= start {
                place - start
            } else {
                place - start + count
            };
            assert(around(start, steps, count) == place);
        }
        assert(round.to_set() =~= places);
        round.unique_seq_to_set();
        lemma_audits_round(complete, start, 0, turns);
        lemma_audits_round(complete, start, 0, 0);
        assert(audits(complete, start, 0) =~= Seq::<int>::empty());
        assert(round + Seq::<int>::empty() =~= round);
    }
}

/// A worktree that is marked waits from then on, if it did not wait before, and one that is reset waits from
/// then on even so; all others wait as they did.
pub proof fn marked_worktrees_wait(
    pending: Map<PathView, u64>,
    which: Set<PathView>,
    at: u64,
    worktree: PathView,
)
    ensures
        ({
            let after = marked(pending, which, at);
            let anew = reset(pending, which, at);
            &&& which.contains(worktree) && !pending.contains_key(worktree) ==> after.contains_pair(
                worktree,
                at,
            )
            &&& pending.contains_key(worktree) ==> after.contains_pair(worktree, pending[worktree])
            &&& !which.contains(worktree) && !pending.contains_key(worktree)
                ==> !after.contains_key(worktree) && !anew.contains_key(worktree)
            &&& which.contains(worktree) ==> anew.contains_pair(worktree, at)
            &&& !which.contains(worktree) && pending.contains_key(worktree) ==> anew.contains_pair(
                worktree,
                pending[worktree],
            )
        }),
{
}

/// A wait ends no later than the first worktree has waited long enough, never lasts more than a second, and
/// is over in a millisecond where one has waited long enough already. It ends before a second only for that.
pub proof fn waits_end_in_time(
    pending: Map<PathView, u64>,
    debounce: u64,
    now: u64,
    timeout: u64,
    worktree: PathView,
)
    requires
        ends_in_time(pending, debounce, now, timeout),
    ensures
        timeout <= 1_000_000_000,
        pending.contains_key(worktree) && pending[worktree] + debounce <= now ==> timeout
            == 1_000_000,
        pending.contains_key(worktree) && pending[worktree] + debounce > now ==> timeout <= pending[worktree]
            + debounce - now || timeout == 1_000_000,
        timeout < 1_000_000_000 ==> exists|other: PathView| #[trigger]
            pending.contains_key(other) && pending[other] + debounce <= now + timeout,
{
    if any_ready(pending, debounce, now) {
        let other = choose|other: PathView| #[trigger]
            pending.contains_key(other) && is_ready(pending, other, debounce, now);
        assert(pending.contains_key(other));
    } else if pending.contains_key(worktree) {
        assert(!is_ready(pending, worktree, debounce, now));
    }
}

/// The next worktree to audit is the first that is watched completely, counted in rounds from the place where
/// the last audit ended; there is none only if none is.
pub proof fn audits_take_the_nearest(complete: Seq<bool>, start: int, skipped: int)
    requires
        0 <= start < complete.len(),
        0 <= skipped <= complete.len(),
    ensures
        match next_place(complete, start, skipped) {
            Some(at) => exists|turn: int|
                skipped <= turn < complete.len() && at == #[trigger] place_at(complete, start, turn)
                    && complete[at] && forall|earlier: int|
                    skipped <= earlier < turn ==> !complete[#[trigger] place_at(
                        complete,
                        start,
                        earlier,
                    )],
            None => forall|turn: int|
                skipped <= turn < complete.len() ==> !complete[#[trigger] place_at(
                    complete,
                    start,
                    turn,
                )],
        },
    decreases complete.len() - skipped,
{
    if skipped < complete.len() {
        let here = place_at(complete, start, skipped);
        if !complete[here] {
            audits_take_the_nearest(complete, start, skipped + 1);
        }
    }
}

/// The place that many turns behind another one.
pub open spec fn place_at(complete: Seq<bool>, start: int, turn: int) -> int {
    (start + turn) % (complete.len() as int)
}

/// A worktree is audited only if it is watched completely, and as long as some worktree is, one is audited.
pub proof fn audited_worktrees_are_watched_completely(
    paths: Seq<PathView>,
    complete: Map<PathView, bool>,
    start: int,
    i: int,
)
    requires
        0 <= start < paths.len(),
        0 <= i < paths.len(),
    ensures
        match next_place(completeness(paths, complete), start, 0) {
            Some(at) => 0 <= at < paths.len() && complete.contains_key(paths[at])
                && complete[paths[at]],
            None => !(complete.contains_key(paths[i]) && complete[paths[i]]),
        },
{
    let flags = completeness(paths, complete);
    let count = paths.len() as int;
    audits_take_the_nearest(flags, start, 0);
    match next_place(flags, start, 0) {
        Some(at) => {
            let turn = choose|turn: int|
                0 <= turn < flags.len() && at == #[trigger] place_at(flags, start, turn)
                    && flags[at] && forall|earlier: int|
                    0 <= earlier < turn ==> !flags[#[trigger] place_at(flags, start, earlier)];
            assert(0 <= place_at(flags, start, turn) < count);
        },
        None => {
            let turn = if i >= start {
                i - start
            } else {
                i - start + count
            };
            assert(place_at(flags, start, turn) == i) by {
                if i >= start {
                    vstd::arithmetic::div_mod::lemma_small_mod(i as nat, count as nat);
                } else {
                    vstd::arithmetic::div_mod::lemma_mod_add_multiples_vanish(i, count);
                    vstd::arithmetic::div_mod::lemma_small_mod(i as nat, count as nat);
                }
            }
            assert(!flags[place_at(flags, start, turn)]);
        },
    }
}

} // verus!
