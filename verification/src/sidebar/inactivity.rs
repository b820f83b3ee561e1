//! Which working agents have stopped producing output.
//!
//! A working agent is interrupted once its pane has shown the same and it has not reported for long
//! enough. It stays so until it reports again, whatever its pane shows; then it has as long again.
use vstd::prelude::*;

use super::clock::elapsed;
use super::state::{AgentPane, AgentPaneView, AgentStatus};
use crate::tables::{KeySet, Table};
use crate::text;
use crate::values::Value;
use std::collections::hash_map::DefaultHasher;
use std::hash::Hasher;
use vstd::std_specs::hash::DefaultHasherAdditionalSpecFns;

verus! {

/// What [`console::strip_ansi_codes`] leaves of a text.
pub uninterp spec fn plain_text(text: Seq<char>) -> Seq<char>;

/// Whether a text holds no character with which a terminal code can begin.
pub open spec fn is_plain(text: Seq<char>) -> bool {
    !text.contains('\u{1b}') && !text.contains('\u{9b}')
}

/// A text without terminal codes, by [`console::strip_ansi_codes`]. What the codes are is left to
/// the crate: the result is a function of the text, and a text in which no code can begin is left
/// as it is.
#[verifier::external_body]
fn strip_codes(text: &str) -> (plain: String)
    ensures
        plain@ == plain_text(text@),
        is_plain(text@) ==> plain@ == text@,
{
    console::strip_ansi_codes(text).into_owned()
}

/// What is remembered of the text of a pane.
pub open spec fn fingerprint_of(text: Seq<char>) -> u64 {
    DefaultHasher::spec_finish(
        seq![
            vstd::utf8::encode_utf8(crate::text::trimmed(plain_text(text))),
            seq![255u8],
        ],
    )
}

/// What is remembered of the text of a pane: a hash of it without terminal codes and without the
/// white space around it.
pub fn fingerprint(text: &str) -> (hash: u64)
    ensures
        hash == fingerprint_of(text@),
        is_plain(text@) ==> hash == DefaultHasher::spec_finish(
            seq![vstd::utf8::encode_utf8(crate::text::trimmed(text@)), seq![255u8]],
        ),
{
    let plain = strip_codes(text);
    let normalized = text::trim(plain.as_str());
    let mut hasher = DefaultHasher::new();
    hasher.write(normalized.as_bytes());
    let end: [u8; 1] = [255];
    hasher.write(end.as_slice());
    assert(end@ =~= seq![255u8]);
    assert(hasher@ =~= seq![vstd::utf8::encode_utf8(normalized@), seq![255u8]]);
    hasher.finish()
}

/// What is known of a pane.
pub struct PaneState {
    /// The fingerprint of its text, when it was first seen, and when the agent had then reported.
    pub entry: Option<(u64, u64, u64)>,
    /// When the agent had reported when it was found to be interrupted.
    pub confirmed: Option<u64>,
}

/// Whether the text of a pane is looked at: not where its agent is known to be interrupted and has
/// not reported since.
pub open spec fn looks(pane: PaneState, reported: u64) -> bool {
    match pane.confirmed {
        Some(then) => reported > then,
        None => true,
    }
}

/// What is known of a pane once its agent, which works, was checked.
pub open spec fn pane_step(
    pane: PaneState,
    reported: u64,
    text: Option<Seq<char>>,
    timeout: u64,
    now: u64,
) -> PaneState {
    if !looks(pane, reported) {
        pane
    } else {
        let entry = if pane.confirmed is Some {
            None
        } else {
            pane.entry
        };
        match text {
            None => PaneState { entry, confirmed: None },
            Some(text) => {
                let hash = fingerprint_of(text);
                match entry {
                    Some((last_hash, since, last_reported)) if last_hash == hash && last_reported
                        == reported => PaneState {
                        entry,
                        confirmed: if super::clock::passed(now, since) >= timeout {
                            Some(reported)
                        } else {
                            None
                        },
                    },
                    _ => PaneState { entry: Some((hash, now, reported)), confirmed: None },
                }
            },
        }
    }
}

/// When an agent last reported.
pub open spec fn reported_by(agent: AgentPaneView) -> u64 {
    match agent.updated_ts {
        Some(time) => time,
        None => 0,
    }
}

/// The panes whose agents work, and when these last reported. Of several agents in a pane the last
/// one counts.
pub open spec fn working_panes(agents: Seq<AgentPaneView>) -> Map<Seq<char>, u64>
    decreases agents.len(),
{
    if agents.len() == 0 {
        Map::empty()
    } else {
        let before = working_panes(agents.drop_last());
        let last = agents.last();
        if last.status == Some(AgentStatus::Working) {
            before.insert(last.pane_id, reported_by(last))
        } else {
            before
        }
    }
}

/// What an inactivity tracker knows.
#[verifier::ext_equal]
pub struct TrackerView {
    pub entries: Map<Seq<char>, (u64, u64, u64)>,
    pub confirmed: Map<Seq<char>, u64>,
    /// How long nothing may happen, in nanoseconds.
    pub timeout: u64,
}

impl TrackerView {
    /// What is known of a pane.
    pub open spec fn pane(self, id: Seq<char>) -> PaneState {
        PaneState {
            entry: if self.entries.contains_key(id) {
                Some(self.entries[id])
            } else {
                None
            },
            confirmed: if self.confirmed.contains_key(id) {
                Some(self.confirmed[id])
            } else {
                None
            },
        }
    }
}

/// Whether looking at a pane can give a text.
pub open spec fn can_show<F: Fn(&str) -> Option<String>>(
    capture: F,
    id: Seq<char>,
    text: Option<Seq<char>>,
) -> bool {
    exists|name: &str, shown: Option<String>|
        name@ == id && #[trigger] call_ensures(capture, (name,), shown) && shown.deep_view() == text
}

/// Whether a check looks at a pane: its agent works and is not known to be interrupted already.
pub open spec fn is_looked_at(
    tracker: TrackerView,
    agents: Seq<AgentPaneView>,
    id: Seq<char>,
) -> bool {
    let working = working_panes(agents);
    working.contains_key(id) && looks(tracker.pane(id), working[id])
}

/// Whether a pane can be known like this behind a check.
pub open spec fn can_follow<F: Fn(&str) -> Option<String>>(
    capture: F,
    before: PaneState,
    after: PaneState,
    id: Seq<char>,
    reported: u64,
    timeout: u64,
    now: u64,
) -> bool {
    exists|text: Option<Seq<char>>|
        (looks(before, reported) ==> can_show(capture, id, text)) && after == #[trigger] pane_step(
            before,
            reported,
            text,
            timeout,
            now,
        )
}

/// Detects working agents that have stopped producing output.
pub struct InactivityTracker {
    entries: Table<String, (u64, (u64, u64))>,
    confirmed: Table<String, u64>,
    timeout: u64,
}

impl DeepView for InactivityTracker {
    type V = TrackerView;

    closed spec fn deep_view(&self) -> TrackerView {
        TrackerView {
            entries: self.entries.deep_view().map_values(
                |entry: (u64, (u64, u64))| (entry.0, entry.1.0, entry.1.1),
            ),
            confirmed: self.confirmed.deep_view(),
            timeout: self.timeout,
        }
    }
}

fn reports(agent: &AgentPane) -> (time: u64)
    ensures
        time == reported_by(agent.deep_view()),
{
    match agent.updated_ts {
        Some(time) => time,
        None => 0,
    }
}

fn is_working(agent: &AgentPane) -> (yes: bool)
    ensures
        yes == (agent.deep_view().status == Some(AgentStatus::Working)),
{
    match agent.status {
        Some(status) => status == AgentStatus::Working,
        None => false,
    }
}

fn find_working(agents: &Vec<AgentPane>) -> (working: Table<String, u64>)
    ensures
        working.deep_view() == working_panes(agents.deep_view()),
{
    let ghost all = agents.deep_view();
    let mut working: Table<String, u64> = Table::new();
    assert(all.take(0) =~= Seq::<AgentPaneView>::empty());
    for i in 0..agents.len()
        invariant
            all == agents.deep_view(),
            working.deep_view() == working_panes(all.take(i as int)),
    {
        assert(all.take(i + 1).drop_last() =~= all.take(i as int));
        assert(all.take(i + 1).last() == agents@[i as int].deep_view());
        if is_working(&agents[i]) {
            working.insert(agents[i].pane_id.dup(), reports(&agents[i]));
        }
    }
    assert(all.take(all.len() as int) =~= all);
    working
}

impl InactivityTracker {
    /// A tracker that knows nothing yet.
    pub fn new(timeout: u64) -> (tracker: Self)
        ensures
            tracker.deep_view() == (TrackerView {
                entries: Map::empty(),
                confirmed: Map::empty(),
                timeout,
            }),
    {
        let tracker = InactivityTracker {
            entries: Table::new(),
            confirmed: Table::new(),
            timeout,
        };
        assert(tracker.deep_view().entries =~= Map::<Seq<char>, (u64, u64, u64)>::empty());
        tracker
    }

    /// Whether the agent in a pane is known to be interrupted, so that its pane need not be looked
    /// at.
    pub fn is_confirmed(&self, pane_id: &str, updated_ts: u64) -> (yes: bool)
        ensures
            yes == !looks(self.deep_view().pane(pane_id@), updated_ts),
    {
        let id: String = pane_id.to_owned();
        match self.confirmed.get(&id) {
            Some(then) => updated_ts <= *then,
            None => false,
        }
    }

    fn pane(&self, id: &String) -> (pane: (Option<(u64, u64, u64)>, Option<u64>))
        ensures
            (PaneState { entry: pane.0, confirmed: pane.1 }) == self.deep_view().pane(id@),
    {
        let entry = match self.entries.get(id) {
            Some(entry) => Some((entry.0, entry.1.0, entry.1.1)),
            None => None,
        };
        let confirmed = match self.confirmed.get(id) {
            Some(then) => Some(*then),
            None => None,
        };
        (entry, confirmed)
    }

    /// Checks all working agents, and gives the panes of those that are interrupted. `capture`
    /// looks at a pane, and may fail. It is called for no other panes than those of working agents
    /// that are not known to be interrupted already.
    pub fn check_with<F: Fn(&str) -> Option<String>>(
        &mut self,
        agents: &Vec<AgentPane>,
        now: u64,
        capture: F,
    ) -> (interrupted: KeySet<String>)
        requires
            forall|id: &str|
                is_looked_at(old(self).deep_view(), agents.deep_view(), id@)
                    ==> #[trigger] call_requires(capture, (id,)),
        ensures
            final(self).deep_view().timeout == old(self).deep_view().timeout,
            interrupted.deep_view() == final(self).deep_view().confirmed.dom(),
            ({
                let working = working_panes(agents.deep_view());
                let before = old(self).deep_view();
                let after = final(self).deep_view();
                &&& after.entries.dom() <= working.dom()
                &&& after.confirmed.dom() <= working.dom()
                &&& forall|id: Seq<char>| #[trigger]
                    working.contains_key(id) ==> can_follow(
                        capture,
                        before.pane(id),
                        after.pane(id),
                        id,
                        working[id],
                        before.timeout,
                        now,
                    )
            }),
    {
        let ghost before = self.deep_view();
        let working = find_working(agents);
        let ghost panes = working.deep_view();
        let ghost pairs = working.pairs();
        let mut entries: Table<String, (u64, (u64, u64))> = Table::new();
        let mut confirmed: Table<String, u64> = Table::new();
        let mut interrupted: KeySet<String> = KeySet::new();
        let timeout: u64 = self.timeout;
        let count: usize = working.len();
        let ghost mut at = TrackerView {
            entries: Map::empty(),
            confirmed: Map::empty(),
            timeout,
        };
        for i in 0..count
            invariant
                forall|id: &str|
                    is_looked_at(before, agents.deep_view(), id@) ==> #[trigger] call_requires(
                        capture,
                        (id,),
                    ),
                panes == working_panes(agents.deep_view()),
                before == self.deep_view(),
                timeout == before.timeout,
                timeout == self.timeout,
                panes == working.deep_view(),
                pairs == working.pairs(),
                count == pairs.len(),
                crate::tables::distinct_keys(pairs),
                at == (TrackerView {
                    entries: entries.deep_view().map_values(
                        |entry: (u64, (u64, u64))| (entry.0, entry.1.0, entry.1.1),
                    ),
                    confirmed: confirmed.deep_view(),
                    timeout,
                }),
                interrupted.deep_view() == at.confirmed.dom(),
                forall|id: Seq<char>| #[trigger]
                    at.entries.contains_key(id) ==> exists|j: int|
                        0 <= j < i && (#[trigger] pairs[j]).0 == id,
                forall|id: Seq<char>| #[trigger]
                    at.confirmed.contains_key(id) ==> exists|j: int|
                        0 <= j < i && (#[trigger] pairs[j]).0 == id,
                forall|j: int|
                    0 <= j < i ==> can_follow(
                        capture,
                        before.pane((#[trigger] pairs[j]).0),
                        at.pane(pairs[j].0),
                        pairs[j].0,
                        pairs[j].1,
                        timeout,
                        now,
                    ),
        {
            let id = working.key_at(i);
            let reported: u64 = *working.value_at(i);
            let ghost name = pairs[i as int].0;
            proof {
                crate::tables::lemma_pair_found(pairs, i as int);
            }
            let (mut entry, mut state) = self.pane(id);
            let ghost old_pane = PaneState { entry, confirmed: state };
            let ghost mut shown: Option<Seq<char>> = None;
            let look = match state {
                Some(then) => reported > then,
                None => true,
            };
            if look {
                if state.is_some() {
                    state = None;
                    entry = None;
                }
                let captured = capture(id.as_str());
                proof {
                    shown = captured.deep_view();
                    assert(can_show(capture, name, shown));
                }
                if let Some(raw) = captured {
                    let hash: u64 = fingerprint(raw.as_str());
                    let known = match entry {
                        Some((last_hash, since, last_reported)) => if last_hash == hash
                            && last_reported == reported {
                            Some(since)
                        } else {
                            None
                        },
                        None => None,
                    };
                    match known {
                        Some(since) => {
                            if elapsed(now, since) >= timeout {
                                state = Some(reported);
                            }
                        },
                        None => {
                            entry = Some((hash, now, reported));
                        },
                    }
                }
            }
            let ghost new_pane = PaneState { entry, confirmed: state };
            assert(new_pane == pane_step(old_pane, reported, shown, timeout, now));
            assert(can_follow(capture, old_pane, new_pane, name, reported, timeout, now));
            let ghost held = at;
            proof {
                if held.entries.contains_key(name) {
                    let j = choose|j: int| 0 <= j < i && (#[trigger] pairs[j]).0 == name;
                }
                if held.confirmed.contains_key(name) {
                    let j = choose|j: int| 0 <= j < i && (#[trigger] pairs[j]).0 == name;
                }
            }
            if let Some((hash, since, last_reported)) = entry {
                entries.insert(id.dup(), (hash, (since, last_reported)));
            }
            if let Some(then) = state {
                confirmed.insert(id.dup(), then);
                interrupted.insert(id.dup());
            }
            proof {
                at = TrackerView {
                    entries: entries.deep_view().map_values(
                        |entry: (u64, (u64, u64))| (entry.0, entry.1.0, entry.1.1),
                    ),
                    confirmed: confirmed.deep_view(),
                    timeout,
                };
                assert(at.pane(name) == new_pane);
                assert(interrupted.deep_view() =~= at.confirmed.dom());
                assert forall|other: Seq<char>| #[trigger] at.entries.contains_key(other) implies
                    exists|j: int| 0 <= j < i + 1 && (#[trigger] pairs[j]).0 == other by {
                    if other != name {
                        assert(held.entries.contains_key(other));
                    } else {
                        assert(pairs[i as int].0 == other);
                    }
                }
                assert forall|other: Seq<char>| #[trigger] at.confirmed.contains_key(other) implies
                    exists|j: int| 0 <= j < i + 1 && (#[trigger] pairs[j]).0 == other by {
                    if other != name {
                        assert(held.confirmed.contains_key(other));
                    } else {
                        assert(pairs[i as int].0 == other);
                    }
                }
                assert forall|j: int| 0 <= j < i + 1 implies can_follow(
                    capture,
                    before.pane((#[trigger] pairs[j]).0),
                    at.pane(pairs[j].0),
                    pairs[j].0,
                    pairs[j].1,
                    timeout,
                    now,
                ) by {
                    if j < i {
                        assert(pairs[j].0 != name);
                        assert(at.pane(pairs[j].0) == held.pane(pairs[j].0));
                    }
                }
            }
        }
        proof {
            assert forall|id: Seq<char>| at.entries.contains_key(id) || at.confirmed.contains_key(
                id,
            ) implies #[trigger] panes.contains_key(id) by {
                let j = choose|j: int| 0 <= j < pairs.len() && (#[trigger] pairs[j]).0 == id;
                crate::tables::lemma_pair_found(pairs, j);
            }
            assert forall|id: Seq<char>| #[trigger] panes.contains_key(id) implies can_follow(
                capture,
                before.pane(id),
                at.pane(id),
                id,
                panes[id],
                timeout,
                now,
            ) by {
                let j = choose|j: int| 0 <= j < pairs.len() && (#[trigger] pairs[j]).0 == id;
                crate::tables::lemma_pair_found(pairs, j);
                assert(before.pane(pairs[j].0) == before.pane(id));
            }
        }
        self.entries = entries;
        self.confirmed = confirmed;
        interrupted
    }
}

/// An interrupted agent stays interrupted whatever its pane shows, as long as it does not report.
pub proof fn interruption_is_sticky(
    pane: PaneState,
    reported: u64,
    text: Option<Seq<char>>,
    timeout: u64,
    now: u64,
)
    requires
        pane.confirmed matches Some(then) && reported <= then,
    ensures
        pane_step(pane, reported, text, timeout, now) == pane,
{
}

/// Only a new report makes an agent that works uninterrupted.
pub proof fn only_reports_clear(
    pane: PaneState,
    reported: u64,
    text: Option<Seq<char>>,
    timeout: u64,
    now: u64,
)
    requires
        pane.confirmed is Some,
        pane_step(pane, reported, text, timeout, now).confirmed is None,
    ensures
        reported > pane.confirmed->0,
{
}

/// Behind a new report an agent is not interrupted again before as much time has passed as at
/// first.
pub proof fn fresh_window_after_report(
    pane: PaneState,
    reported: u64,
    text: Option<Seq<char>>,
    timeout: u64,
    now: u64,
    later_text: Option<Seq<char>>,
    then: u64,
)
    requires
        pane.confirmed matches Some(before) && reported > before,
        now <= then < now + timeout,
    ensures
        ({
            let resumed = pane_step(pane, reported, text, timeout, now);
            &&& resumed.confirmed is None
            &&& pane_step(resumed, reported, later_text, timeout, then).confirmed is None
        }),
{
}

/// A check of a pane: when the agent had reported, what the pane showed if it could be looked at,
/// and the time.
pub struct PaneCheck {
    pub reported: u64,
    pub text: Option<Seq<char>>,
    pub now: u64,
}

/// What is known of a pane behind a run of checks.
pub open spec fn pane_run(checks: Seq<PaneCheck>, timeout: u64) -> PaneState
    decreases checks.len(),
{
    if checks.len() == 0 {
        PaneState { entry: None, confirmed: None }
    } else {
        let last = checks.last();
        pane_step(
            pane_run(checks.drop_last(), timeout),
            last.reported,
            last.text,
            timeout,
            last.now,
        )
    }
}

/// Whether the pane showed the same in a check as in an earlier one, if it could be looked at, and
/// the agent had not reported in between.
pub open spec fn is_silent(earlier: PaneCheck, check: PaneCheck) -> bool {
    check.text matches Some(text) ==> fingerprint_of(text) == fingerprint_of(earlier.text->0)
        && check.reported == earlier.reported
}

/// Whether nothing happened in a pane from one check on to the end.
pub open spec fn silent_since(checks: Seq<PaneCheck>, from: int) -> bool {
    &&& 0 <= from < checks.len()
    &&& checks[from].text is Some
    &&& forall|i: int| from <= i < checks.len() ==> is_silent(checks[from], #[trigger] checks[i])
}

proof fn lemma_entry_means_silence(checks: Seq<PaneCheck>, timeout: u64)
    requires
        pane_run(checks, timeout).entry is Some,
        pane_run(checks, timeout).confirmed is None,
    ensures
        exists|from: int| #[trigger]
            silent_since(checks, from) && pane_run(checks, timeout).entry == Some(
                (
                    fingerprint_of(checks[from].text->0),
                    checks[from].now,
                    checks[from].reported,
                ),
            ),
    decreases checks.len(),
{
    let before = checks.drop_last();
    let last = checks.last();
    let n = checks.len() - 1;
    assert(checks[n] == last);
    let earlier = pane_run(before, timeout);
    let now = pane_run(checks, timeout);
    if earlier.confirmed is None && earlier.entry is Some && now.entry == earlier.entry && (
    last.text is None || (fingerprint_of(last.text->0) == (earlier.entry->0).0 && last.reported
        == (earlier.entry->0).2)) {
        lemma_entry_means_silence(before, timeout);
        let from = choose|from: int| #[trigger]
            silent_since(before, from) && earlier.entry == Some(
                (
                    fingerprint_of(before[from].text->0),
                    before[from].now,
                    before[from].reported,
                ),
            );
        assert(checks[from] == before[from]);
        assert forall|i: int| from <= i < checks.len() implies is_silent(
            checks[from],
            #[trigger] checks[i],
        ) by {
            if i < n {
                assert(checks[i] == before[i]);
                assert(is_silent(before[from], before[i]));
            }
        }
        assert(silent_since(checks, from));
    } else {
        assert(silent_since(checks, n));
    }
}

/// An agent is found to be interrupted only if nothing happened in its pane for as long as the
/// timeout says: it showed the same and the agent did not report.
pub proof fn interruption_needs_silence(checks: Seq<PaneCheck>, timeout: u64)
    requires
        checks.len() > 0,
        pane_run(checks.drop_last(), timeout).confirmed is None,
        pane_run(checks, timeout).confirmed is Some,
    ensures
        exists|from: int| #[trigger]
            silent_since(checks, from) && super::clock::passed(
                checks.last().now,
                checks[from].now,
            ) >= timeout,
{
    let before = checks.drop_last();
    let last = checks.last();
    let n = checks.len() - 1;
    assert(checks[n] == last);
    let earlier = pane_run(before, timeout);
    lemma_entry_means_silence(before, timeout);
    let from = choose|from: int| #[trigger]
        silent_since(before, from) && earlier.entry == Some(
            (fingerprint_of(before[from].text->0), before[from].now, before[from].reported),
        );
    assert(checks[from] == before[from]);
    assert forall|i: int| from <= i < checks.len() implies is_silent(
        checks[from],
        #[trigger] checks[i],
    ) by {
        if i < n {
            assert(checks[i] == before[i]);
            assert(is_silent(before[from], before[i]));
        }
    }
    assert(silent_since(checks, from));
}

proof fn lemma_silence_counts(checks: Seq<PaneCheck>, from: int, timeout: u64)
    requires
        silent_since(checks, from),
        forall|i: int|
            from <= i < checks.len() ==> (#[trigger] checks[i]).reported == checks[from].reported,
        forall|i: int, j: int|
            0 <= i <= j < checks.len() ==> (#[trigger] checks[i]).now <= (#[trigger] checks[j]).now,
    ensures
        ({
            let pane = pane_run(checks, timeout);
            let first = checks[from];
            match pane.confirmed {
                Some(then) => then >= first.reported,
                None => pane.entry matches Some((hash, since, reported)) && hash == fingerprint_of(
                    first.text->0,
                ) && reported == first.reported && since <= first.now,
            }
        }),
        from + 1 < checks.len() && checks.last().text is Some && checks.last().now
            - checks[from].now >= timeout ==> pane_run(checks, timeout).confirmed is Some,
    decreases checks.len(),
{
    let before = checks.drop_last();
    let last = checks.last();
    let n = checks.len() - 1;
    assert(checks[n] == last);
    assert(is_silent(checks[from], checks[n]));
    assert forall|i: int| 0 <= i < n implies #[trigger] before[i] == checks[i] by {}
    if from < n {
        assert(before[from] == checks[from]);
        assert forall|i: int| from <= i < before.len() implies is_silent(
            before[from],
            #[trigger] before[i],
        ) by {
            assert(is_silent(checks[from], checks[i]));
        }
        lemma_silence_counts(before, from, timeout);
    } else {
        lemma_entry_is_past(before, timeout);
    }
}

proof fn lemma_entry_is_past(checks: Seq<PaneCheck>, timeout: u64)
    ensures
        pane_run(checks, timeout).entry matches Some((_, since, _)) ==> exists|i: int|
            0 <= i < checks.len() && (#[trigger] checks[i]).now == since,
    decreases checks.len(),
{
    if checks.len() > 0 {
        let before = checks.drop_last();
        lemma_entry_is_past(before, timeout);
        if pane_run(checks, timeout).entry is Some {
            let since = (pane_run(checks, timeout).entry->0).1;
            if pane_run(before, timeout).entry == pane_run(checks, timeout).entry {
                let i = choose|i: int| 0 <= i < before.len() && (#[trigger] before[i]).now == since;
                assert(checks[i].now == since);
            } else {
                assert(checks[checks.len() - 1].now == since);
            }
        }
    }
}

/// An agent is found to be interrupted once nothing happened in its pane for as long as the timeout
/// says, however often it was checked in between: if a pane shows the same in every check from one
/// on that could look at it and its agent does not report, then behind every later look that comes
/// when the time is over it is known to be interrupted.
pub proof fn silence_is_interruption(checks: Seq<PaneCheck>, from: int, timeout: u64)
    requires
        0 <= from,
        from + 1 < checks.len(),
        forall|i: int, j: int|
            0 <= i <= j < checks.len() ==> (#[trigger] checks[i]).now <= (#[trigger] checks[j]).now,
        checks[from].text is Some,
        checks.last().text is Some,
        forall|i: int|
            from <= i < checks.len() ==> (#[trigger] checks[i]).reported == checks[from].reported,
        forall|i: int|
            from <= i < checks.len() && (#[trigger] checks[i]).text is Some ==> fingerprint_of(
                checks[i].text->0,
            ) == fingerprint_of(checks[from].text->0),
        checks.last().now - checks[from].now >= timeout,
    ensures
        pane_run(checks, timeout).confirmed is Some,
{
    assert forall|i: int| from <= i < checks.len() implies is_silent(
        checks[from],
        #[trigger] checks[i],
    ) by {}
    lemma_silence_counts(checks, from, timeout);
}

/// An agent whose pane changed, or that reported, within the timeout is not newly found to be
/// interrupted.
pub proof fn activity_is_no_interruption(checks: Seq<PaneCheck>, at: int, timeout: u64)
    requires
        0 <= at,
        at + 1 < checks.len(),
        pane_run(checks.drop_last(), timeout).confirmed is None,
        checks[at].text is Some,
        checks.last().text is Some,
        fingerprint_of(checks[at].text->0) != fingerprint_of(checks.last().text->0)
            || checks[at].reported != checks.last().reported,
        forall|i: int| at < i < checks.len() ==> checks.last().now - (#[trigger] checks[i]).now
            < timeout,
    ensures
        pane_run(checks, timeout).confirmed is None,
{
    if pane_run(checks, timeout).confirmed is Some {
        interruption_needs_silence(checks, timeout);
        let from = choose|from: int| #[trigger]
            silent_since(checks, from) && super::clock::passed(
                checks.last().now,
                checks[from].now,
            ) >= timeout;
        assert(checks[checks.len() - 1] == checks.last());
        if from <= at {
            assert(is_silent(checks[from], checks[at]));
            assert(is_silent(checks[from], checks[checks.len() - 1]));
        } else {
            assert(checks.last().now - checks[from].now < timeout);
        }
    }
}

/// Whether an agent works in a pane.
pub open spec fn works_in(agent: AgentPaneView, id: Seq<char>) -> bool {
    agent.pane_id == id && agent.status == Some(AgentStatus::Working)
}

/// The panes that are checked are those in which some agent works.
pub proof fn working_agents_are_checked(agents: Seq<AgentPaneView>, id: Seq<char>)
    ensures
        working_panes(agents).contains_key(id) <==> exists|i: int|
            0 <= i < agents.len() && works_in(#[trigger] agents[i], id),
    decreases agents.len(),
{
    if agents.len() > 0 {
        let before = agents.drop_last();
        let n = agents.len() - 1;
        assert(agents[n] == agents.last());
        working_agents_are_checked(before, id);
        if exists|i: int| 0 <= i < before.len() && works_in(#[trigger] before[i], id) {
            let i = choose|i: int| 0 <= i < before.len() && works_in(#[trigger] before[i], id);
            assert(works_in(agents[i], id));
        }
        if exists|i: int| 0 <= i < agents.len() && works_in(#[trigger] agents[i], id) {
            let i = choose|i: int| 0 <= i < agents.len() && works_in(#[trigger] agents[i], id);
            if i < n {
                assert(works_in(before[i], id));
            }
        }
    }
}

/// Of several agents that work in a pane the last one says when it was heard of, and one that never
/// reported was heard of at the origin of time.
pub proof fn last_working_agent_counts(agents: Seq<AgentPaneView>, id: Seq<char>, i: int)
    requires
        0 <= i < agents.len(),
        works_in(agents[i], id),
        forall|j: int| i < j < agents.len() ==> !works_in(#[trigger] agents[j], id),
    ensures
        working_panes(agents).contains_key(id),
        agents[i].updated_ts matches Some(time) ==> working_panes(agents)[id] == time,
        agents[i].updated_ts is None ==> working_panes(agents)[id] == 0,
    decreases agents.len(),
{
    let before = agents.drop_last();
    let n = agents.len() - 1;
    assert(agents[n] == agents.last());
    if i < n {
        assert(!works_in(agents[n], id));
        assert(before[i] == agents[i]);
        assert forall|j: int| i < j < before.len() implies !works_in(#[trigger] before[j], id) by {
            assert(!works_in(agents[j], id));
        }
        last_working_agent_counts(before, id, i);
    }
}

/// White space around the text of a pane does not count, and neither do terminal codes: what is
/// remembered is a hash of what is left.
pub proof fn remembered_text_is_bare(
    text: Seq<char>,
    before: Seq<char>,
    core: Seq<char>,
    after: Seq<char>,
)
    requires
        plain_text(text) == before + core + after,
        forall|i: int| 0 <= i < before.len() ==> crate::text::is_space(#[trigger] before[i]),
        forall|i: int| 0 <= i < after.len() ==> crate::text::is_space(#[trigger] after[i]),
        core.len() > 0 ==> !crate::text::is_space(core[0]) && !crate::text::is_space(core.last()),
    ensures
        fingerprint_of(text) == DefaultHasher::spec_finish(
            seq![vstd::utf8::encode_utf8(core), seq![255u8]],
        ),
{
    crate::text::trimming_leaves_core(before, core, after);
}

/// A pane is looked at unless its agent is known to be interrupted and has not reported since.
pub proof fn interrupted_panes_are_not_looked_at(pane: PaneState, reported: u64)
    ensures
        pane.confirmed is None ==> looks(pane, reported),
        pane.confirmed matches Some(then) ==> (looks(pane, reported) <==> reported > then),
{
}

/// A pane that cannot be looked at is known as it was, if its agent is not known to be interrupted.
pub proof fn failed_looks_change_nothing(pane: PaneState, reported: u64, timeout: u64, now: u64)
    requires
        pane.confirmed is None,
    ensures
        pane_step(pane, reported, None, timeout, now) == pane,
{
}

} // verus!
